//! Device identification.
//!
//! Maps USB VID/PID pairs to FNIRSI model names and selects the protocol
//! variant (FNB58 family or FNB48 family).

use vstd::prelude::*;
use vstd::string::StringExecFns;

use crate::text;

verus! {

/// Known FNIRSI device types.
#[derive(Debug, Clone, Copy, PartialEq, Eq, Structural, Hash)]
pub enum DeviceType {
    Fnb48,
    Fnb48s,
    Fnb58,
    C1,
    Fnac28,
}

impl DeviceType {
    /// The model name.
    pub open spec fn name(self) -> Seq<char> {
        match self {
            DeviceType::Fnb48 => "FNB48"@,
            DeviceType::Fnb48s => "FNB48S"@,
            DeviceType::Fnb58 => "FNB58"@,
            DeviceType::C1 => "C1"@,
            DeviceType::Fnac28 => "FNAC28"@,
        }
    }

    /// The model name.
    pub fn label(self) -> (r: &'static str)
        ensures
            r@ == self.name(),
    {
        match self {
            DeviceType::Fnb48 => "FNB48",
            DeviceType::Fnb48s => "FNB48S",
            DeviceType::Fnb58 => "FNB58",
            DeviceType::C1 => "C1",
            DeviceType::Fnac28 => "FNAC28",
        }
    }
}

/// USB Vendor/Product ID pair.
#[derive(Debug, Clone, Copy, PartialEq, Eq, Structural)]
pub struct UsbId {
    pub vid: u16,
    pub pid: u16,
}

/// VID of the pair that C1 and FNAC28 share.
pub const SHARED_VID: u16 = 0x0483;

/// PID of the pair that C1 and FNAC28 share.
pub const SHARED_PID: u16 = 0x003B;

/// VID of a meter in DFU (firmware update) mode.
pub const DFU_VID: u16 = 0x0483;

/// PID of a meter in DFU (firmware update) mode.
pub const DFU_PID: u16 = 0x0038;

/// The model that a VID/PID pair stands for in data mode.
pub open spec fn listed(vid: u16, pid: u16) -> Option<DeviceType> {
    if vid == 0x0483 && pid == 0x003A {
        Some(DeviceType::Fnb48)
    } else if vid == 0x2E3C && pid == 0x0049 {
        Some(DeviceType::Fnb48s)
    } else if vid == 0x2E3C && pid == 0x5558 {
        Some(DeviceType::Fnb58)
    } else if vid == 0x0483 && pid == 0x003B {
        Some(DeviceType::C1)
    } else {
        None
    }
}

/// Known VID/PID pairs for data-mode devices, each with its model.
pub open spec fn known() -> Seq<(UsbId, DeviceType)> {
    seq![
        (UsbId { vid: 0x0483, pid: 0x003A }, DeviceType::Fnb48),
        (UsbId { vid: 0x2E3C, pid: 0x0049 }, DeviceType::Fnb48s),
        (UsbId { vid: 0x2E3C, pid: 0x5558 }, DeviceType::Fnb58),
        (UsbId { vid: 0x0483, pid: 0x003B }, DeviceType::C1),
    ]
}

/// Known VID/PID pairs for data-mode devices, each with its model.
///
/// C1 and FNAC28 share a pair, which is listed as C1.
pub fn known_devices() -> (r: [(UsbId, DeviceType); 4])
    ensures
        r@ == known(),
        forall|i: int|
            0 <= i < 4 ==> listed((#[trigger] r@[i]).0.vid, r@[i].0.pid) == Some(r@[i].1),
        forall|vid: u16, pid: u16|
            #[trigger] listed(vid, pid) is Some ==> exists|i: int|
                0 <= i < 4 && (#[trigger] r@[i]).0 == (UsbId { vid, pid }),
{
    let r = [
        (UsbId { vid: 0x0483, pid: 0x003A }, DeviceType::Fnb48),
        (UsbId { vid: 0x2E3C, pid: 0x0049 }, DeviceType::Fnb48s),
        (UsbId { vid: 0x2E3C, pid: 0x5558 }, DeviceType::Fnb58),
        (UsbId { vid: 0x0483, pid: 0x003B }, DeviceType::C1),
    ];
    assert(r@ =~= known());
    assert(r@[0].1 == DeviceType::Fnb48);
    assert(r@[1].1 == DeviceType::Fnb48s);
    assert(r@[2].1 == DeviceType::Fnb58);
    assert(r@[3].1 == DeviceType::C1);
    r
}

/// The VID/PID pair of a meter in DFU (firmware update) mode.
pub fn dfu_usb_id() -> (r: UsbId)
    ensures
        r == (UsbId { vid: DFU_VID, pid: DFU_PID }),
{
    UsbId { vid: DFU_VID, pid: DFU_PID }
}

/// Of the two models that share a pair, the one that a product string names,
/// which is given in lower case.
pub open spec fn named(lowercased: Seq<char>) -> DeviceType {
    if text::holds(lowercased, "c1"@) {
        DeviceType::C1
    } else {
        DeviceType::Fnac28
    }
}

/// Of the two models that share a pair, the one that a product string names,
/// which is given in lower case.
pub fn type_by_product(lowercased: &str) -> (r: DeviceType)
    ensures
        r == named(lowercased@),
{
    if text::contains(lowercased, "c1") {
        DeviceType::C1
    } else {
        DeviceType::Fnac28
    }
}

/// The model of a device, given its product string.
pub open spec fn detected(vid: u16, pid: u16, product: Option<Seq<char>>) -> Option<DeviceType> {
    if vid == SHARED_VID && pid == SHARED_PID && product is Some {
        Some(named(text::lowered(product->0)))
    } else {
        listed(vid, pid)
    }
}

/// Detect the device type from VID/PID, using the product string, where there
/// is one, to distinguish C1 from FNAC28.
pub fn detect_device_type(vid: u16, pid: u16, product_string: Option<&str>) -> (r: Option<
    DeviceType,
>)
    ensures
        r == detected(
            vid,
            pid,
            match product_string {
                Some(p) => Some(p@),
                None => None,
            },
        ),
        product_string matches Some(p) ==> vid == SHARED_VID && pid == SHARED_PID && (forall|i: int|
            0 <= i < p@.len() ==> text::ascii(#[trigger] p@[i])) ==> r == Some(
            named(p@.map_values(|c: char| text::ascii_lower(c))),
        ),
{
    let table = known_devices();
    let mut i: usize = 0;
    while i < 4
        invariant
            i <= 4,
            forall|j: int|
                0 <= j < 4 ==> listed((#[trigger] table@[j]).0.vid, table@[j].0.pid) == Some(
                    table@[j].1,
                ),
            listed(vid, pid) is Some ==> exists|j: int|
                i <= j < 4 && (#[trigger] table@[j]).0 == (UsbId { vid, pid }),
        decreases 4 - i,
    {
        let (id, device_type) = table[i];
        if id.vid == vid && id.pid == pid {
            if vid == SHARED_VID && pid == SHARED_PID {
                match product_string {
                    Some(product) => {
                        let lowercased = text::to_lowercase(product);
                        return Some(type_by_product(lowercased.as_str()));
                    },
                    None => {},
                }
            }
            return Some(device_type);
        }
        i = i + 1;
    }
    None
}

/// Whether a model speaks the FNB58 variant of the protocol.
pub open spec fn fnb58_family(device_type: DeviceType) -> bool {
    device_type == DeviceType::Fnb58 || device_type == DeviceType::Fnb48s
}

/// Whether a device type uses the "FNB58/FNB48S" protocol variant.
///
/// These devices require a different initialization sequence and a keep-alive
/// interval of one second instead of 3 ms.
pub fn is_fnb58_variant(device_type: DeviceType) -> (r: bool)
    ensures
        r == fnb58_family(device_type),
{
    matches!(device_type, DeviceType::Fnb58 | DeviceType::Fnb48s)
}

/// Information about a connected device.
#[derive(Debug, Clone)]
pub struct DeviceInfo {
    pub device_type: DeviceType,
    pub vid: u16,
    pub pid: u16,
    pub manufacturer: Option<String>,
    pub product: Option<String>,
    pub serial: Option<String>,
    pub path: Option<Vec<u8>>,
}

/// A labelled part of the description, where it is known.
pub open spec fn part(label: Seq<char>, value: Option<String>) -> Seq<char> {
    match value {
        Some(v) => label + v@,
        None => Seq::empty(),
    }
}

fn push_part(out: &mut String, label: &str, value: &Option<String>)
    ensures
        final(out)@ == old(out)@ + part(label@, *value),
{
    match value {
        Some(v) => {
            out.append(label);
            out.append(v.as_str());
        },
        None => {},
    }
    assert(out@ =~= old(out)@ + part(label@, *value));
}

impl DeviceInfo {
    /// The description: model and IDs, then what else is known.
    pub open spec fn described(&self) -> Seq<char> {
        self.device_type.name() + " (VID:"@ + text::hex4_text(self.vid) + " PID:"@
            + text::hex4_text(self.pid) + ")"@ + part(" mfr="@, self.manufacturer) + part(
            " product="@,
            self.product,
        ) + part(" serial="@, self.serial)
    }

    /// Describe the device in one line.
    pub fn describe(&self) -> (r: String)
        ensures
            r@ == self.described(),
    {
        let mut out = self.device_type.label().to_owned();
        out.append(" (VID:");
        text::push_hex4(&mut out, self.vid);
        out.append(" PID:");
        text::push_hex4(&mut out, self.pid);
        out.append(")");
        push_part(&mut out, " mfr=", &self.manufacturer);
        push_part(&mut out, " product=", &self.product);
        push_part(&mut out, " serial=", &self.serial);
        out
    }
}

/// Model law: the known pairs are told apart, and no other pair is a meter. Of
/// the pair that C1 and FNAC28 share, the product string decides: it is a C1
/// where `c1` stands in it, in either case, an FNAC28 where it does not, and a
/// C1 where there is none.
pub proof fn models_are_told_apart(vid: u16, pid: u16, product: Option<Seq<char>>)
    ensures
        match detected(vid, pid, product) {
            Some(DeviceType::Fnb48) => vid == 0x0483 && pid == 0x003A,
            Some(DeviceType::Fnb48s) => vid == 0x2E3C && pid == 0x0049,
            Some(DeviceType::Fnb58) => vid == 0x2E3C && pid == 0x5558,
            Some(DeviceType::C1) => vid == 0x0483 && pid == 0x003B && (product matches Some(p)
                ==> text::holds(text::lowered(p), "c1"@)),
            Some(DeviceType::Fnac28) => vid == 0x0483 && pid == 0x003B && product is Some
                && !text::holds(text::lowered(product->0), "c1"@),
            None => {
                &&& !(vid == 0x0483 && (pid == 0x003A || pid == 0x003B))
                &&& !(vid == 0x2E3C && (pid == 0x0049 || pid == 0x5558))
            },
        },
{
}

/// Description law: a description begins with the model and ends with the serial
/// number, and what is not known leaves nothing behind.
pub proof fn descriptions_tell_what_is_known(info: DeviceInfo)
    ensures
        info.manufacturer is None && info.product is None && info.serial is None
            ==> info.described() == info.device_type.name() + " (VID:"@ + text::hex4_text(info.vid)
            + " PID:"@ + text::hex4_text(info.pid) + ")"@,
        info.serial matches Some(serial) ==> info.described() == (DeviceInfo {
            serial: None,
            ..info
        }).described() + (" serial="@ + serial@),
        info.serial is None ==> (info.product matches Some(product) ==> info.described() == (
        DeviceInfo { product: None, ..info }).described() + (" product="@ + product@)),
        info.serial is None && info.product is None ==> (info.manufacturer matches Some(m)
            ==> info.described() == (DeviceInfo { manufacturer: None, ..info }).described() + (
        " mfr="@ + m@)),
{
    let nothing = Seq::<char>::empty();
    let head = info.device_type.name() + " (VID:"@ + text::hex4_text(info.vid) + " PID:"@
        + text::hex4_text(info.pid) + ")"@;
    let made = head + part(" mfr="@, info.manufacturer);
    let named = made + part(" product="@, info.product);
    assert(head + nothing =~= head);
    assert(made + nothing =~= made);
    assert(named + nothing =~= named);
}

/// Model law: the FNB58 and the FNB48S are one family, and all others the other.
pub proof fn models_are_of_two_families(device_type: DeviceType)
    ensures
        fnb58_family(device_type) <==> device_type != DeviceType::Fnb48 && device_type
            != DeviceType::C1 && device_type != DeviceType::Fnac28,
{
}

/// Model law: every pair that is listed is known under its model, and no other.
pub proof fn known_pairs_are_listed(vid: u16, pid: u16)
    ensures
        known().len() == 4,
        listed(vid, pid) is None <==> forall|i: int|
            0 <= i < 4 ==> (#[trigger] known()[i]).0 != (UsbId { vid, pid }),
        forall|i: int|
            0 <= i < 4 && (#[trigger] known()[i]).0 == (UsbId { vid, pid }) ==> listed(vid, pid)
                == Some(known()[i].1),
{
    assert(known()[0].0 == (UsbId { vid: 0x0483, pid: 0x003A }));
    assert(known()[1].0 == (UsbId { vid: 0x2E3C, pid: 0x0049 }));
    assert(known()[2].0 == (UsbId { vid: 0x2E3C, pid: 0x5558 }));
    assert(known()[3].0 == (UsbId { vid: 0x0483, pid: 0x003B }));
}

} // verus!
