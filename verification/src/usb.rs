//! USB devices as the passthrough machinery sees them. Enumerating the
//! host's devices is the caller's business; the naming and argument logic
//! lives here.

use vstd::prelude::*;

use crate::text::push_char;

verus! {

broadcast use vstd::string::group_string_axioms;

/// One USB device of the host.
#[derive(Debug, Clone, PartialEq, Eq)]
pub struct UsbDevice {
    pub vendor_id: u16,
    pub product_id: u16,
    pub vendor_name: String,
    pub product_name: String,
    pub bus_num: u8,
    pub dev_num: u8,
    pub device_class: u8,
}

/// Lower-case hexadecimal digit of a value below sixteen.
pub open spec fn hex_digit(d: int) -> char {
    if d < 10 {
        ((48 + d) as u8) as char
    } else {
        ((87 + d) as u8) as char
    }
}

/// Four-digit lower-case hexadecimal representation of a 16-bit value.
pub open spec fn spec_hex4(n: int) -> Seq<char> {
    seq![
        hex_digit(n / 4096 % 16),
        hex_digit(n / 256 % 16),
        hex_digit(n / 16 % 16),
        hex_digit(n % 16),
    ]
}

/// Four-digit lower-case hexadecimal representation of `n`.
pub fn hex4(n: u16) -> (r: String)
    ensures
        r@ == spec_hex4(n as int),
{
    let mut s = String::new();
    let d0: u16 = n / 4096 % 16;
    let d1: u16 = n / 256 % 16;
    let d2: u16 = n / 16 % 16;
    let d3: u16 = n % 16;
    push_char(&mut s, (if d0 < 10 { (48 + d0) as u8 } else { (87 + d0) as u8 }) as char);
    push_char(&mut s, (if d1 < 10 { (48 + d1) as u8 } else { (87 + d1) as u8 }) as char);
    push_char(&mut s, (if d2 < 10 { (48 + d2) as u8 } else { (87 + d2) as u8 }) as char);
    push_char(&mut s, (if d3 < 10 { (48 + d3) as u8 } else { (87 + d3) as u8 }) as char);
    proof {
        assert(s@ =~= spec_hex4(n as int));
    }
    s
}

/// The display string of a device: its names when known, otherwise its
/// identifiers in hexadecimal.
pub open spec fn spec_usb_display(
    vendor_name: Seq<char>,
    product_name: Seq<char>,
    vid: int,
    pid: int,
) -> Seq<char> {
    if product_name.len() > 0 {
        if vendor_name.len() > 0 {
            vendor_name + seq![' '] + product_name
        } else {
            product_name
        }
    } else {
        "USB Device "@ + spec_hex4(vid) + seq![':'] + spec_hex4(pid)
    }
}

impl UsbDevice {
    /// Whether this is a hub: the hub device class is nine.
    pub fn is_hub(&self) -> (r: bool)
        ensures
            r == (self.device_class == 9),
    {
        self.device_class == 0x09
    }

    /// A display string for this device.
    pub fn display_name(&self) -> (r: String)
        ensures
            r@ == spec_usb_display(
                self.vendor_name@,
                self.product_name@,
                self.vendor_id as int,
                self.product_id as int,
            ),
    {
        if !self.product_name.as_str().is_empty() {
            if !self.vendor_name.as_str().is_empty() {
                let mut s = self.vendor_name.clone();
                s.append(" ");
                s.append(self.product_name.as_str());
                proof {
                    reveal_strlit(" ");
                    assert(self.vendor_name@ + " "@ + self.product_name@
                        =~= self.vendor_name@ + seq![' '] + self.product_name@);
                }
                s
            } else {
                self.product_name.clone()
            }
        } else {
            let mut s = String::from_str("USB Device ");
            let v = hex4(self.vendor_id);
            s.append(v.as_str());
            s.append(":");
            let p = hex4(self.product_id);
            s.append(p.as_str());
            proof {
                reveal_strlit(":");
                assert("USB Device "@ + spec_hex4(self.vendor_id as int) + ":"@ + spec_hex4(
                    self.product_id as int,
                ) =~= spec_usb_display(
                    self.vendor_name@,
                    self.product_name@,
                    self.vendor_id as int,
                    self.product_id as int,
                ));
            }
            s
        }
    }

    /// The emulator passthrough arguments for this device: the device flag
    /// and the host-device descriptor with both identifiers.
    pub fn to_qemu_args(&self) -> (r: Vec<String>)
        ensures
            r@.len() == 2,
            r@[0]@ == "-device"@,
            r@[1]@ == "usb-host,vendorid=0x"@ + spec_hex4(self.vendor_id as int)
                + ",productid=0x"@ + spec_hex4(self.product_id as int),
    {
        let mut args: Vec<String> = Vec::new();
        args.push(String::from_str("-device"));
        let mut d = String::from_str("usb-host,vendorid=0x");
        let v = hex4(self.vendor_id);
        d.append(v.as_str());
        d.append(",productid=0x");
        let p = hex4(self.product_id);
        d.append(p.as_str());
        args.push(d);
        args
    }
}

} // verus!
