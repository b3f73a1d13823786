//! The emulated machine: its table of virtual devices, each a file on the
//! host, and the operating system it runs.
use vstd::prelude::*;
use crate::eunix::kernel::Kernel;
use crate::text::{Named, names_of, sorted_names, lookup_named, upsert_named, lemma_lookup_named_some, str_eq};

verus! {

/// The kinds of virtual device a machine can have.
#[derive(PartialEq, Eq, Clone, Copy, Debug, Structural)]
pub enum VirtualDeviceType {
    BlockDevice,
    TTYDevice,
}

/// The device type a machine description names, if it names one: `block`
/// or `tty`.
pub fn parse_device_type(name: &str) -> (device_type: Option<VirtualDeviceType>)
    ensures
        name@ == "block"@ ==> device_type == Some(VirtualDeviceType::BlockDevice),
        name@ == "tty"@ ==> device_type == Some(VirtualDeviceType::TTYDevice),
        name@ != "block"@ && name@ != "tty"@ ==> device_type is None,
{
    proof {
        reveal_strlit("block");
        reveal_strlit("tty");
        assert("block"@.len() == 5 && "tty"@.len() == 3);
    }
    if str_eq(name, "block") {
        Some(VirtualDeviceType::BlockDevice)
    } else if str_eq(name, "tty") {
        Some(VirtualDeviceType::TTYDevice)
    } else {
        None
    }
}

/// A device of the machine: the path of its file on the host, and its type.
#[derive(Debug)]
pub struct MachineDevice {
    pub realpath: String,
    pub dev_type: VirtualDeviceType,
}

impl Named for MachineDevice {
    open spec fn spec_name(&self) -> Seq<char> {
        self.realpath@
    }

    fn name_str(&self) -> (s: &str) {
        self.realpath.as_str()
    }
}

/// The devices of a machine, sorted by their host path, none twice.
#[derive(Debug)]
pub struct MachineDeviceTable {
    pub devices: Vec<MachineDevice>,
}

impl View for MachineDeviceTable {
    type V = Map<Seq<char>, VirtualDeviceType>;

    /// Each host path with the type of its device.
    open spec fn view(&self) -> Map<Seq<char>, VirtualDeviceType> {
        Map::new(
            |p: Seq<char>| lookup_named(self.devices@, p) is Some,
            |p: Seq<char>| lookup_named(self.devices@, p).unwrap().dev_type,
        )
    }
}

impl MachineDeviceTable {
    /// Devices sorted by host path, none twice.
    pub open spec fn wf(&self) -> bool {
        sorted_names(names_of(self.devices@))
    }

    /// A table without devices.
    pub fn new() -> (table: Self)
        ensures
            table.wf(),
            table@ == Map::<Seq<char>, VirtualDeviceType>::empty(),
    {
        let table = MachineDeviceTable { devices: Vec::new() };
        proof {
            assert forall|p: Seq<char>| !table@.contains_key(p) by {
                lemma_lookup_named_some(table.devices@, p);
            }
            assert(table@ =~= Map::<Seq<char>, VirtualDeviceType>::empty());
        }
        table
    }

    /// Sets the device at host path `realpath` to be of type `dev_type`.
    pub fn insert(&mut self, realpath: &str, dev_type: VirtualDeviceType)
        requires
            old(self).wf(),
        ensures
            final(self).wf(),
            final(self)@ == old(self)@.insert(realpath@, dev_type),
    {
        let ghost before = self.devices@;
        let ghost old_view = self@;
        upsert_named(&mut self.devices, MachineDevice { realpath: realpath.to_owned(), dev_type });
        proof {
            assert forall|p: Seq<char>| #[trigger] self@.contains_key(p) == old_view.insert(realpath@, dev_type).contains_key(p) by {
                lemma_lookup_named_some(self.devices@, p);
                lemma_lookup_named_some(before, p);
            }
            assert(self@ =~= old_view.insert(realpath@, dev_type));
        }
    }
}

/// The operating system a machine runs.
pub struct OperatingSystem {
    pub kernel: Kernel,
}

/// A machine: its devices, and whether it has booted.
#[derive(Debug)]
pub struct Machine {
    device_table: MachineDeviceTable,
    is_booted: bool,
}

impl Machine {
    /// The machine's device table.
    pub closed spec fn spec_device_table(&self) -> &MachineDeviceTable {
        &self.device_table
    }

    /// Whether the machine has booted.
    pub closed spec fn spec_is_booted(&self) -> bool {
        self.is_booted
    }

    /// A machine with the given devices, not booted yet.
    pub fn with_devices(device_table: MachineDeviceTable) -> (machine: Self)
        ensures
            *machine.spec_device_table() == device_table,
            !machine.spec_is_booted(),
    {
        Machine { device_table, is_booted: false }
    }

    /// The machine's device table.
    pub fn device_table(&self) -> (table: &MachineDeviceTable)
        ensures
            *table == *self.spec_device_table(),
    {
        &self.device_table
    }

    /// Runs an operating system on the machine; there is nothing to run yet.
    pub fn run(&self, os: OperatingSystem) {
    }
}

} // verus!
