//! Finding a serial device again after its connection was lost.

use crate::ident::Uuid;
use crate::model::{SerialConfig, SerialPortDescriptor};
use crate::text::{eq_ignore_ascii_case, same_ignoring_ascii_case};
use vstd::prelude::*;

verus! {

/// How often it is looked whether a connection can be restored.
pub const AUTO_RECONNECT_POLL_MS: u64 = 250;

/// How long to wait after a connection could not be restored.
pub const AUTO_RECONNECT_RETRY_NS: u64 = 1_000_000_000;

/// Which device to connect to again, how, and not before when.
#[derive(Debug)]
pub struct SerialReconnectPlan {
    pub source_id: Uuid,
    pub config: SerialConfig,
    pub device: Option<SerialPortDescriptor>,
    pub next_attempt_ns: u64,
}

impl Clone for SerialReconnectPlan {
    fn clone(&self) -> (plan: SerialReconnectPlan)
        ensures
            plan == *self,
    {
        SerialReconnectPlan {
            source_id: self.source_id,
            config: self.config.clone(),
            device: match &self.device {
                Some(device) => Some(device.clone()),
                None => None,
            },
            next_attempt_ns: self.next_attempt_ns,
        }
    }
}

/// Whether two optional texts do not contradict each other.
pub open spec fn texts_compatible(left: Option<String>, right: Option<String>) -> bool {
    left matches Some(l) ==> (right matches Some(r) ==> l@ == r@)
}

/// Whether two optional texts do not contradict each other.
pub fn optional_text_matches(left: &Option<String>, right: &Option<String>) -> (compatible: bool)
    ensures
        compatible == texts_compatible(*left, *right),
{
    match (left, right) {
        (Some(l), Some(r)) => *l == *r,
        _ => true,
    }
}

/// Whether a port is the device that another port was. A serial number decides; else
/// the vendor and product, as far as they are known; else the name.
pub open spec fn same_device(left: SerialPortDescriptor, right: SerialPortDescriptor) -> bool {
    &&& left.kind@ == right.kind@
    &&& match left.serial_number {
        Some(number) => {
            &&& left.vid == right.vid
            &&& left.pid == right.pid
            &&& right.serial_number matches Some(other) && other@ == number@
        },
        None => if left.vid is Some || left.pid is Some {
            &&& left.vid == right.vid
            &&& left.pid == right.pid
            &&& texts_compatible(left.manufacturer, right.manufacturer)
            &&& texts_compatible(left.product, right.product)
        } else {
            same_ignoring_ascii_case(left.name@, right.name@)
        },
    }
}

fn same_id(left: Option<u16>, right: Option<u16>) -> (same: bool)
    ensures
        same == (left == right),
{
    match (left, right) {
        (Some(l), Some(r)) => l == r,
        (None, None) => true,
        _ => false,
    }
}

/// Whether a port is the device that another port was.
pub fn same_serial_device(left: &SerialPortDescriptor, right: &SerialPortDescriptor) -> (same: bool)
    ensures
        same == same_device(*left, *right),
{
    if left.kind != right.kind {
        return false;
    }
    if let Some(number) = &left.serial_number {
        return same_id(left.vid, right.vid) && same_id(left.pid, right.pid) && match
            &right.serial_number {
            Some(other) => *other == *number,
            None => false,
        };
    }
    if left.vid.is_some() || left.pid.is_some() {
        return same_id(left.vid, right.vid) && same_id(left.pid, right.pid)
            && optional_text_matches(&left.manufacturer, &right.manufacturer)
            && optional_text_matches(&left.product, &right.product);
    }
    eq_ignore_ascii_case(left.name.as_str(), right.name.as_str())
}

/// The first port that is the device that was remembered.
pub open spec fn first_same_device(
    ports: Seq<SerialPortDescriptor>,
    device: SerialPortDescriptor,
) -> Option<int>
    decreases ports.len(),
{
    if ports.len() == 0 {
        None
    } else {
        match first_same_device(ports.drop_last(), device) {
            Some(i) => Some(i),
            None => if same_device(device, ports.last()) {
                Some(ports.len() - 1)
            } else {
                None
            },
        }
    }
}

/// The first port of a name.
pub open spec fn first_named(ports: Seq<SerialPortDescriptor>, name: Seq<char>) -> Option<int>
    decreases ports.len(),
{
    if ports.len() == 0 {
        None
    } else {
        match first_named(ports.drop_last(), name) {
            Some(i) => Some(i),
            None => if same_ignoring_ascii_case(ports.last().name@, name) {
                Some(ports.len() - 1)
            } else {
                None
            },
        }
    }
}

/// The port to connect to: that of the device that was remembered, else the one of
/// the name that was used.
pub open spec fn reconnect_port(plan: SerialReconnectPlan, ports: Seq<SerialPortDescriptor>) -> Option<
    int,
> {
    let by_device = match plan.device {
        Some(device) => first_same_device(ports, device),
        None => None,
    };
    match by_device {
        Some(i) => Some(i),
        None => first_named(ports, plan.config.port_name@),
    }
}

/// A port that was found is among the ports, is the device, and no earlier one is.
pub proof fn lemma_first_same_device(
    ports: Seq<SerialPortDescriptor>,
    device: SerialPortDescriptor,
)
    ensures
        match first_same_device(ports, device) {
            Some(i) => 0 <= i < ports.len() && same_device(device, ports[i]) && (forall|j: int|
                0 <= j < i ==> !same_device(device, #[trigger] ports[j])),
            None => forall|j: int| 0 <= j < ports.len() ==> !same_device(device, #[trigger] ports[j]),
        },
    decreases ports.len(),
{
    if ports.len() > 0 {
        let head = ports.drop_last();
        lemma_first_same_device(head, device);
        assert(forall|j: int| 0 <= j < head.len() ==> #[trigger] ports[j] == head[j]);
    }
}

/// A port that was found is among the ports, has the name, and no earlier one has.
pub proof fn lemma_first_named(ports: Seq<SerialPortDescriptor>, name: Seq<char>)
    ensures
        match first_named(ports, name) {
            Some(i) => 0 <= i < ports.len() && same_ignoring_ascii_case(ports[i].name@, name) && (
            forall|j: int|
                0 <= j < i ==> !same_ignoring_ascii_case((#[trigger] ports[j]).name@, name)),
            None => forall|j: int|
                0 <= j < ports.len() ==> !same_ignoring_ascii_case(
                    (#[trigger] ports[j]).name@,
                    name,
                ),
        },
    decreases ports.len(),
{
    if ports.len() > 0 {
        let head = ports.drop_last();
        lemma_first_named(head, name);
        assert(forall|j: int| 0 <= j < head.len() ==> #[trigger] ports[j] == head[j]);
    }
}

fn find_device(ports: &Vec<SerialPortDescriptor>, device: &SerialPortDescriptor) -> (found: Option<
    usize,
>)
    ensures
        match found {
            Some(i) => first_same_device(ports@, *device) == Some(i as int) && i < ports@.len(),
            None => first_same_device(ports@, *device) is None,
        },
{
    let mut i: usize = 0;
    assert(ports@.take(0) =~= Seq::<SerialPortDescriptor>::empty());
    while i < ports.len()
        invariant
            i <= ports@.len(),
            first_same_device(ports@.take(i as int), *device) is None,
        decreases ports@.len() - i,
    {
        proof {
            assert(ports@.take(i + 1).drop_last() =~= ports@.take(i as int));
        }
        if same_serial_device(device, &ports[i]) {
            proof {
                lemma_device_prefix(ports@, *device, i + 1);
            }
            return Some(i);
        }
        i += 1;
    }
    assert(ports@.take(i as int) =~= ports@);
    None
}

proof fn lemma_device_prefix(
    ports: Seq<SerialPortDescriptor>,
    device: SerialPortDescriptor,
    count: int,
)
    requires
        0 <= count <= ports.len(),
        first_same_device(ports.take(count), device) is Some,
    ensures
        first_same_device(ports, device) == first_same_device(ports.take(count), device),
    decreases ports.len() - count,
{
    if count < ports.len() {
        assert(ports.take(count + 1).drop_last() =~= ports.take(count));
        lemma_device_prefix(ports, device, count + 1);
    } else {
        assert(ports.take(count) =~= ports);
    }
}

/// The first port of a name.
pub fn find_named(ports: &Vec<SerialPortDescriptor>, name: &String) -> (found: Option<usize>)
    ensures
        match found {
            Some(i) => first_named(ports@, name@) == Some(i as int) && i < ports@.len(),
            None => first_named(ports@, name@) is None,
        },
{
    let mut i: usize = 0;
    assert(ports@.take(0) =~= Seq::<SerialPortDescriptor>::empty());
    while i < ports.len()
        invariant
            i <= ports@.len(),
            first_named(ports@.take(i as int), name@) is None,
        decreases ports@.len() - i,
    {
        proof {
            assert(ports@.take(i + 1).drop_last() =~= ports@.take(i as int));
        }
        if eq_ignore_ascii_case(ports[i].name.as_str(), name.as_str()) {
            proof {
                lemma_named_prefix(ports@, name@, i + 1);
            }
            return Some(i);
        }
        i += 1;
    }
    assert(ports@.take(i as int) =~= ports@);
    None
}

proof fn lemma_named_prefix(ports: Seq<SerialPortDescriptor>, name: Seq<char>, count: int)
    requires
        0 <= count <= ports.len(),
        first_named(ports.take(count), name) is Some,
    ensures
        first_named(ports, name) == first_named(ports.take(count), name),
    decreases ports.len() - count,
{
    if count < ports.len() {
        assert(ports.take(count + 1).drop_last() =~= ports.take(count));
        lemma_named_prefix(ports, name, count + 1);
    } else {
        assert(ports.take(count) =~= ports);
    }
}

/// How to connect again, given the ports that are there: as before, at the port where
/// the device is now.
pub fn select_reconnect_config_from_ports(
    plan: &SerialReconnectPlan,
    ports: &Vec<SerialPortDescriptor>,
) -> (config: Option<SerialConfig>)
    ensures
        match reconnect_port(*plan, ports@) {
            Some(i) => config == Some(
                SerialConfig { port_name: ports@[i].name, ..plan.config },
            ),
            None => config is None,
        },
{
    let by_device: Option<usize> = match &plan.device {
        Some(device) => find_device(ports, device),
        None => None,
    };
    let found: Option<usize> = match by_device {
        Some(i) => Some(i),
        None => find_named(ports, &plan.config.port_name),
    };
    match found {
        Some(i) => {
            let mut config = plan.config.clone();
            config.port_name = ports[i].name.clone();
            Some(config)
        },
        None => None,
    }
}

/// A device that was remembered is found again whatever its port is called now: if
/// any port is that device, the first such port is chosen, and nothing but the name
/// of the port changes.
pub proof fn law_a_device_is_found_under_another_name(
    plan: SerialReconnectPlan,
    ports: Seq<SerialPortDescriptor>,
    device: SerialPortDescriptor,
    i: int,
)
    requires
        plan.device == Some(device),
        0 <= i < ports.len(),
        same_device(device, ports[i]),
        forall|j: int| 0 <= j < i ==> !same_device(device, #[trigger] ports[j]),
    ensures
        reconnect_port(plan, ports) == Some(i),
{
    lemma_first_same_device(ports, device);
    match first_same_device(ports, device) {
        Some(k) => {
            if k < i {
                assert(!same_device(device, ports[k]));
            }
            if i < k {
                assert(!same_device(device, ports[i]));
            }
        },
        None => {
            assert(!same_device(device, ports[i]));
        },
    }
}

/// A device that has a serial number is known by it, together with its vendor and product,
/// whatever its port is called and whatever else is said of it.
pub proof fn law_a_serial_number_identifies_a_device(
    device: &SerialPortDescriptor,
    port: &SerialPortDescriptor,
    same: bool,
)
    requires
        device.serial_number is Some,
        call_ensures(same_serial_device, (device, port), same),
    ensures
        same <==> device.kind@ == port.kind@ && device.vid == port.vid && device.pid == port.pid
            && port.serial_number is Some && port.serial_number->Some_0@
            == device.serial_number->Some_0@,
{
}

/// A device without a serial number is known by its vendor and product, unless its
/// manufacturer or the name of the product speaks against it. One of which neither vendor nor
/// product is known is known by the name of its port.
pub proof fn law_a_device_without_a_number(
    device: &SerialPortDescriptor,
    port: &SerialPortDescriptor,
    same: bool,
)
    requires
        device.serial_number is None,
        call_ensures(same_serial_device, (device, port), same),
    ensures
        device.kind@ != port.kind@ ==> !same,
        device.kind@ == port.kind@ && device.vid is None && device.pid is None ==> same
            == same_ignoring_ascii_case(device.name@, port.name@),
        device.vid is Some || device.pid is Some ==> {
            &&& device.vid != port.vid || device.pid != port.pid ==> !same
            &&& device.manufacturer is Some && port.manufacturer is Some
                && device.manufacturer->Some_0@ != port.manufacturer->Some_0@ ==> !same
            &&& device.product is Some && port.product is Some && device.product->Some_0@
                != port.product->Some_0@ ==> !same
            &&& device.kind@ == port.kind@ && device.vid == port.vid && device.pid == port.pid && (
            device.manufacturer is None || port.manufacturer is None) && (device.product is None
                || port.product is None) ==> same
            &&& device.kind@ == port.kind@ && device.vid == port.vid && device.pid == port.pid
                && device.manufacturer == port.manufacturer && device.product == port.product
                ==> same
        },
{
}

/// A connection is restored at the first port where the device that was remembered is, else at
/// the first port of the name that was used, else nowhere. Nothing but the name of the port
/// changes.
pub proof fn law_a_connection_is_restored_where_the_device_is(
    plan: &SerialReconnectPlan,
    ports: &Vec<SerialPortDescriptor>,
    config: Option<SerialConfig>,
    i: int,
)
    requires
        call_ensures(select_reconnect_config_from_ports, (plan, ports), config),
    ensures
        plan.device is Some && 0 <= i < ports@.len() && same_device(
            plan.device->Some_0,
            ports@[i],
        ) && (forall|j: int|
            0 <= j < i ==> !same_device(plan.device->Some_0, #[trigger] ports@[j])) ==> config
            == Some(SerialConfig { port_name: ports@[i].name, ..plan.config }),
        (plan.device is None || forall|j: int|
            0 <= j < ports@.len() ==> !same_device(plan.device->Some_0, #[trigger] ports@[j]))
            && 0 <= i < ports@.len() && same_ignoring_ascii_case(
            ports@[i].name@,
            plan.config.port_name@,
        ) && (forall|j: int|
            0 <= j < i ==> !same_ignoring_ascii_case(
                (#[trigger] ports@[j]).name@,
                plan.config.port_name@,
            )) ==> config == Some(SerialConfig { port_name: ports@[i].name, ..plan.config }),
        config is Some ==> exists|k: int|
            0 <= k < ports@.len() && (#[trigger] ports@[k]).name == config->Some_0.port_name,
        config is None ==> forall|j: int|
            0 <= j < ports@.len() ==> !same_ignoring_ascii_case(
                (#[trigger] ports@[j]).name@,
                plan.config.port_name@,
            ) && (plan.device is Some ==> !same_device(plan.device->Some_0, ports@[j])),
{
    lemma_first_named(ports@, plan.config.port_name@);
    if plan.device is Some {
        let device = plan.device->Some_0;
        lemma_first_same_device(ports@, device);
        if 0 <= i < ports@.len() && same_device(device, ports@[i]) && (forall|j: int|
            0 <= j < i ==> !same_device(device, #[trigger] ports@[j])) {
            law_a_device_is_found_under_another_name(*plan, ports@, device, i);
        }
        match first_same_device(ports@, device) {
            Some(k) => {
                assert(same_device(device, ports@[k]));
            },
            None => {},
        }
    }
    let name = plan.config.port_name@;
    match first_named(ports@, name) {
        Some(k) => {
            if 0 <= i < k {
                assert(!same_ignoring_ascii_case(ports@[i].name@, name));
            }
            assert(same_ignoring_ascii_case(ports@[k].name@, name));
        },
        None => {
            if 0 <= i < ports@.len() {
                assert(!same_ignoring_ascii_case(ports@[i].name@, name));
            }
        },
    }
}

} // verus!
