//! The configuration model: one closed set of variants per dimension, each
//! backed by a canonical token table shared by the extractor and the
//! synthesizer so that the two can never drift apart.

use vstd::prelude::*;

verus! {

broadcast use vstd::string::group_string_axioms;

/// The emulator architectures this library recognizes.
#[derive(Debug, Clone, Copy, PartialEq, Eq, Structural)]
pub enum QemuEmulator {
    X86_64,
    I386,
    Ppc,
    M68k,
    Arm,
    Aarch64,
    Unknown,
}

/// Canonical on-script binary name of each known emulator.
pub open spec fn emulator_token(e: QemuEmulator) -> Seq<char> {
    match e {
        QemuEmulator::X86_64 => "qemu-system-x86_64"@,
        QemuEmulator::I386 => "qemu-system-i386"@,
        QemuEmulator::Ppc => "qemu-system-ppc"@,
        QemuEmulator::M68k => "qemu-system-m68k"@,
        QemuEmulator::Arm => "qemu-system-arm"@,
        QemuEmulator::Aarch64 => "qemu-system-aarch64"@,
        QemuEmulator::Unknown => "unknown"@,
    }
}

/// The variant whose canonical binary name is exactly `s`.
pub open spec fn spec_emulator_from_command(s: Seq<char>) -> QemuEmulator {
    if s == "qemu-system-x86_64"@ {
        QemuEmulator::X86_64
    } else if s == "qemu-system-i386"@ {
        QemuEmulator::I386
    } else if s == "qemu-system-ppc"@ {
        QemuEmulator::Ppc
    } else if s == "qemu-system-m68k"@ {
        QemuEmulator::M68k
    } else if s == "qemu-system-arm"@ {
        QemuEmulator::Arm
    } else if s == "qemu-system-aarch64"@ {
        QemuEmulator::Aarch64
    } else {
        QemuEmulator::Unknown
    }
}

impl QemuEmulator {
    /// The variant whose canonical binary name is exactly `cmd`.
    pub fn from_command(cmd: &str) -> (r: QemuEmulator)
        ensures
            r == spec_emulator_from_command(cmd@),
    {
        if crate::text::str_eq(cmd, "qemu-system-x86_64") {
            QemuEmulator::X86_64
        } else if crate::text::str_eq(cmd, "qemu-system-i386") {
            QemuEmulator::I386
        } else if crate::text::str_eq(cmd, "qemu-system-ppc") {
            QemuEmulator::Ppc
        } else if crate::text::str_eq(cmd, "qemu-system-m68k") {
            QemuEmulator::M68k
        } else if crate::text::str_eq(cmd, "qemu-system-arm") {
            QemuEmulator::Arm
        } else if crate::text::str_eq(cmd, "qemu-system-aarch64") {
            QemuEmulator::Aarch64
        } else {
            QemuEmulator::Unknown
        }
    }

    /// Canonical binary name, the synthesis side of the token table.
    pub fn command(&self) -> (r: &'static str)
        ensures
            r@ == emulator_token(*self),
    {
        match self {
            QemuEmulator::X86_64 => "qemu-system-x86_64",
            QemuEmulator::I386 => "qemu-system-i386",
            QemuEmulator::Ppc => "qemu-system-ppc",
            QemuEmulator::M68k => "qemu-system-m68k",
            QemuEmulator::Arm => "qemu-system-arm",
            QemuEmulator::Aarch64 => "qemu-system-aarch64",
            QemuEmulator::Unknown => "unknown",
        }
    }
}

/// Reading a known emulator's canonical binary name back through the table
/// yields the same variant: extraction and synthesis cannot drift apart.
pub proof fn lemma_emulator_token_round_trip(e: QemuEmulator)
    requires
        e != QemuEmulator::Unknown,
    ensures
        spec_emulator_from_command(emulator_token(e)) == e,
{
    reveal_strlit("qemu-system-x86_64");
    reveal_strlit("qemu-system-i386");
    reveal_strlit("qemu-system-ppc");
    reveal_strlit("qemu-system-m68k");
    reveal_strlit("qemu-system-arm");
    reveal_strlit("qemu-system-aarch64");
    assert("qemu-system-x86_64"@[12] == 'x' && "qemu-system-i386"@[12] == 'i'
        && "qemu-system-ppc"@[12] == 'p' && "qemu-system-m68k"@[12] == 'm'
        && "qemu-system-arm"@[12] == 'a' && "qemu-system-aarch64"@[12] == 'a'
        && "qemu-system-arm"@[13] == 'r' && "qemu-system-aarch64"@[13] == 'a');
    match e {
        QemuEmulator::X86_64 => {
            assert(spec_emulator_from_command(emulator_token(e)) == e);
        },
        QemuEmulator::I386 => {
            assert("qemu-system-i386"@[12] == 'i' && "qemu-system-m68k"@[12] == 'm');
            assert(spec_emulator_from_command(emulator_token(e)) == e);
        },
        QemuEmulator::Ppc => {
            assert("qemu-system-ppc"@[12] == 'p' && "qemu-system-arm"@[12] == 'a');
            assert(spec_emulator_from_command(emulator_token(e)) == e);
        },
        QemuEmulator::M68k => {
            assert("qemu-system-m68k"@[12] == 'm' && "qemu-system-i386"@[12] == 'i');
            assert(spec_emulator_from_command(emulator_token(e)) == e);
        },
        QemuEmulator::Arm => {
            assert("qemu-system-arm"@[12] == 'a' && "qemu-system-ppc"@[12] == 'p');
            assert(spec_emulator_from_command(emulator_token(e)) == e);
        },
        QemuEmulator::Aarch64 => {
            assert(spec_emulator_from_command(emulator_token(e)) == e);
        },
        QemuEmulator::Unknown => {},
    }
}

/// The graphics adapters this library recognizes.
#[derive(Debug, Clone, Copy, PartialEq, Eq, Structural)]
pub enum VgaType {
    Standard,
    Cirrus,
    Vmware,
    Qxl,
    Virtio,
    Disabled,
    Unknown,
}

/// Canonical on-script token of each known graphics adapter.
pub open spec fn vga_token(v: VgaType) -> Seq<char> {
    match v {
        VgaType::Standard => "std"@,
        VgaType::Cirrus => "cirrus"@,
        VgaType::Vmware => "vmware"@,
        VgaType::Qxl => "qxl"@,
        VgaType::Virtio => "virtio"@,
        VgaType::Disabled => "none"@,
        VgaType::Unknown => "unknown"@,
    }
}

/// The variant whose canonical token is exactly `s`.
pub open spec fn spec_vga_from_token(s: Seq<char>) -> VgaType {
    if s == "std"@ {
        VgaType::Standard
    } else if s == "cirrus"@ {
        VgaType::Cirrus
    } else if s == "vmware"@ {
        VgaType::Vmware
    } else if s == "qxl"@ {
        VgaType::Qxl
    } else if s == "virtio"@ {
        VgaType::Virtio
    } else if s == "none"@ {
        VgaType::Disabled
    } else {
        VgaType::Unknown
    }
}

impl VgaType {
    /// The variant whose canonical token is exactly `s`.
    pub fn from_str(s: &str) -> (r: VgaType)
        ensures
            r == spec_vga_from_token(s@),
    {
        if crate::text::str_eq(s, "std") {
            VgaType::Standard
        } else if crate::text::str_eq(s, "cirrus") {
            VgaType::Cirrus
        } else if crate::text::str_eq(s, "vmware") {
            VgaType::Vmware
        } else if crate::text::str_eq(s, "qxl") {
            VgaType::Qxl
        } else if crate::text::str_eq(s, "virtio") {
            VgaType::Virtio
        } else if crate::text::str_eq(s, "none") {
            VgaType::Disabled
        } else {
            VgaType::Unknown
        }
    }

    /// Canonical token, the synthesis side of the token table.
    pub fn as_str(&self) -> (r: &'static str)
        ensures
            r@ == vga_token(*self),
    {
        match self {
            VgaType::Standard => "std",
            VgaType::Cirrus => "cirrus",
            VgaType::Vmware => "vmware",
            VgaType::Qxl => "qxl",
            VgaType::Virtio => "virtio",
            VgaType::Disabled => "none",
            VgaType::Unknown => "unknown",
        }
    }
}

/// Reading a known graphics adapter's canonical token back through the table
/// yields the same variant.
pub proof fn lemma_vga_token_round_trip(v: VgaType)
    requires
        v != VgaType::Unknown,
    ensures
        spec_vga_from_token(vga_token(v)) == v,
{
    reveal_strlit("std");
    reveal_strlit("cirrus");
    reveal_strlit("vmware");
    reveal_strlit("qxl");
    reveal_strlit("virtio");
    reveal_strlit("none");
    match v {
        VgaType::Standard => {
            assert(spec_vga_from_token(vga_token(v)) == v);
        },
        VgaType::Cirrus => {
            assert("cirrus"@[0] == 'c' && "std"@[0] == 's' && "qxl"@[0] == 'q');
            assert(spec_vga_from_token(vga_token(v)) == v);
        },
        VgaType::Vmware => {
            assert("vmware"@[0] == 'v' && "cirrus"@[0] == 'c');
            assert("vmware"@[1] == 'm' && "virtio"@[1] == 'i');
            assert(spec_vga_from_token(vga_token(v)) == v);
        },
        VgaType::Qxl => {
            assert("qxl"@[0] == 'q' && "std"@[0] == 's');
            assert(spec_vga_from_token(vga_token(v)) == v);
        },
        VgaType::Virtio => {
            assert("virtio"@[0] == 'v' && "cirrus"@[0] == 'c');
            assert("virtio"@[1] == 'i' && "vmware"@[1] == 'm');
            assert(spec_vga_from_token(vga_token(v)) == v);
        },
        VgaType::Disabled => {
            assert("none"@[0] == 'n' && "std"@[0] == 's' && "qxl"@[0] == 'q');
            assert(spec_vga_from_token(vga_token(v)) == v);
        },
        VgaType::Unknown => {},
    }
}

/// The audio device families this library recognizes; a machine may carry
/// several at once.
#[derive(Debug, Clone, Copy, PartialEq, Eq, Structural)]
pub enum AudioDevice {
    Sb16,
    Ac97,
    Hda,
    Es1370,
}

/// Canonical on-script token of each audio device family.
pub open spec fn audio_token(a: AudioDevice) -> Seq<char> {
    match a {
        AudioDevice::Sb16 => "sb16"@,
        AudioDevice::Ac97 => "ac97"@,
        AudioDevice::Hda => "intel-hda"@,
        AudioDevice::Es1370 => "es1370"@,
    }
}

impl AudioDevice {
    /// Canonical token, the synthesis side of the token table.
    pub fn token(&self) -> (r: &'static str)
        ensures
            r@ == audio_token(*self),
    {
        match self {
            AudioDevice::Sb16 => "sb16",
            AudioDevice::Ac97 => "ac97",
            AudioDevice::Hda => "intel-hda",
            AudioDevice::Es1370 => "es1370",
        }
    }
}

/// The disk image formats this library recognizes. Only the copy-on-write
/// format supports point-in-time snapshots.
#[derive(Debug, Clone, Copy, PartialEq, Eq, Structural)]
pub enum DiskFormat {
    Qcow2,
    Raw,
    Vdi,
    Vmdk,
    Vhd,
}

/// Canonical file extension of each disk format.
pub open spec fn format_extension(f: DiskFormat) -> Seq<char> {
    match f {
        DiskFormat::Qcow2 => "qcow2"@,
        DiskFormat::Raw => "raw"@,
        DiskFormat::Vdi => "vdi"@,
        DiskFormat::Vmdk => "vmdk"@,
        DiskFormat::Vhd => "vhd"@,
    }
}

/// The format inferred from a file extension, defaulting to the least
/// structured (raw) format when the extension is unknown.
pub open spec fn spec_format_from_extension(s: Seq<char>) -> DiskFormat {
    if s == "qcow2"@ {
        DiskFormat::Qcow2
    } else if s == "raw"@ || s == "img"@ {
        DiskFormat::Raw
    } else if s == "vdi"@ {
        DiskFormat::Vdi
    } else if s == "vmdk"@ {
        DiskFormat::Vmdk
    } else if s == "vhd"@ || s == "vpc"@ {
        DiskFormat::Vhd
    } else {
        DiskFormat::Raw
    }
}

impl DiskFormat {
    /// The format inferred from the file extension `ext`.
    pub fn from_extension(ext: &str) -> (r: DiskFormat)
        ensures
            r == spec_format_from_extension(ext@),
    {
        if crate::text::str_eq(ext, "qcow2") {
            DiskFormat::Qcow2
        } else if crate::text::str_eq(ext, "raw") || crate::text::str_eq(ext, "img") {
            DiskFormat::Raw
        } else if crate::text::str_eq(ext, "vdi") {
            DiskFormat::Vdi
        } else if crate::text::str_eq(ext, "vmdk") {
            DiskFormat::Vmdk
        } else if crate::text::str_eq(ext, "vhd") || crate::text::str_eq(ext, "vpc") {
            DiskFormat::Vhd
        } else {
            DiskFormat::Raw
        }
    }

    /// Canonical extension, the synthesis side of the token table.
    pub fn extension(&self) -> (r: &'static str)
        ensures
            r@ == format_extension(*self),
    {
        match self {
            DiskFormat::Qcow2 => "qcow2",
            DiskFormat::Raw => "raw",
            DiskFormat::Vdi => "vdi",
            DiskFormat::Vmdk => "vmdk",
            DiskFormat::Vhd => "vhd",
        }
    }

    /// Only the copy-on-write format supports point-in-time snapshots.
    pub fn supports_snapshots(&self) -> (r: bool)
        ensures
            r == (*self == DiskFormat::Qcow2),
    {
        match self {
            DiskFormat::Qcow2 => true,
            _ => false,
        }
    }
}

/// Reading a disk format's canonical extension back through the table yields
/// the same variant, for every format.
pub proof fn lemma_disk_format_round_trip(f: DiskFormat)
    ensures
        spec_format_from_extension(format_extension(f)) == f,
{
    reveal_strlit("qcow2");
    reveal_strlit("raw");
    reveal_strlit("img");
    reveal_strlit("vdi");
    reveal_strlit("vmdk");
    reveal_strlit("vhd");
    reveal_strlit("vpc");
    assert("qcow2"@[0] == 'q' && "raw"@[0] == 'r' && "img"@[0] == 'i' && "vdi"@[0] == 'v'
        && "vmdk"@[0] == 'v' && "vhd"@[0] == 'v' && "vpc"@[0] == 'v');
    assert("vdi"@[1] == 'd' && "vmdk"@[1] == 'm' && "vhd"@[1] == 'h' && "vpc"@[1] == 'p');
    match f {
        DiskFormat::Qcow2 => {
            assert(spec_format_from_extension(format_extension(f)) == f);
        },
        DiskFormat::Raw => {
            assert(spec_format_from_extension(format_extension(f)) == f);
        },
        DiskFormat::Vdi => {
            assert("vdi"@[0] == 'v' && "raw"@[0] == 'r' && "img"@[0] == 'i');
            assert(spec_format_from_extension(format_extension(f)) == f);
        },
        DiskFormat::Vmdk => {
            assert(spec_format_from_extension(format_extension(f)) == f);
        },
        DiskFormat::Vhd => {
            assert("vhd"@[0] == 'v' && "raw"@[0] == 'r' && "img"@[0] == 'i');
            assert("vhd"@[1] == 'h' && "vdi"@[1] == 'd');
            assert(spec_format_from_extension(format_extension(f)) == f);
        },
    }
}

/// One disk attached to a machine.
#[derive(Debug, Clone, PartialEq, Eq)]
pub struct DiskConfig {
    /// Absolute resolved path of the image file.
    pub path: String,
    /// Format inferred from the resolved path's extension.
    pub format: DiskFormat,
    /// Interface label: legacy fixed-disk slots use "ide"; a modern drive
    /// flag may name its interface explicitly.
    pub interface: String,
}

/// Network configuration of a machine that has a NIC at all.
#[derive(Debug, Clone, PartialEq, Eq)]
pub struct NetworkConfig {
    /// Adapter model string.
    pub model: String,
    /// User-mode (NAT) networking rather than bridged.
    pub user_net: bool,
    /// Bridge name, when bridged networking names one.
    pub bridge: Option<String>,
}

impl Default for NetworkConfig {
    /// Type default: empty model, bridged flag unset, no bridge name.
    fn default() -> (r: NetworkConfig)
        ensures
            r.model@ == Seq::<char>::empty(),
            r.user_net == false,
            r.bridge is None,
    {
        NetworkConfig { model: String::new(), user_net: false, bridge: None }
    }
}

/// Transport protocol of a port-forward rule.
#[derive(Debug, Clone, Copy, PartialEq, Eq, Structural)]
pub enum PortProtocol {
    Tcp,
    Udp,
}

/// Canonical on-script token of each protocol.
pub open spec fn protocol_token(p: PortProtocol) -> Seq<char> {
    match p {
        PortProtocol::Tcp => "tcp"@,
        PortProtocol::Udp => "udp"@,
    }
}

impl PortProtocol {
    /// Canonical token, the synthesis side of the token table.
    pub fn token(&self) -> (r: &'static str)
        ensures
            r@ == protocol_token(*self),
    {
        match self {
            PortProtocol::Tcp => "tcp",
            PortProtocol::Udp => "udp",
        }
    }
}

/// One user-mode port-forward rule.
#[derive(Debug, Clone, Copy, PartialEq, Eq, Structural)]
pub struct PortForward {
    pub protocol: PortProtocol,
    pub host_port: u16,
    pub guest_port: u16,
}

/// The structured configuration recovered from one launch script.
#[derive(Debug, Clone)]
pub struct QemuConfig {
    pub emulator: QemuEmulator,
    /// Memory size in megabytes.
    pub memory_mb: u32,
    pub cpu_cores: u32,
    pub cpu_model: Option<String>,
    pub machine: Option<String>,
    pub vga: VgaType,
    pub audio_devices: Vec<AudioDevice>,
    /// Hardware acceleration enabled anywhere in the script.
    pub enable_kvm: bool,
    /// Firmware (UEFI) boot markers present anywhere in the script.
    pub uefi: bool,
    /// Trusted-platform-module emulation markers present anywhere.
    pub tpm: bool,
    /// Disks in order of first appearance in the script.
    pub disks: Vec<DiskConfig>,
    /// Present exactly when the script introduces a NIC at all.
    pub network: Option<NetworkConfig>,
    /// Recognized-but-unmodeled flags, captured verbatim for display.
    pub extra_args: Vec<String>,
    /// The full original script text, never discarded.
    pub raw_script: String,
}

/// Every field of the configuration holds its type default.
pub open spec fn spec_config_is_default(c: QemuConfig) -> bool {
    &&& c.emulator == QemuEmulator::Unknown
    &&& c.memory_mb == 0
    &&& c.cpu_cores == 0
    &&& c.cpu_model is None
    &&& c.machine is None
    &&& c.vga == VgaType::Unknown
    &&& c.audio_devices@ =~= Seq::<AudioDevice>::empty()
    &&& c.enable_kvm == false
    &&& c.uefi == false
    &&& c.tpm == false
    &&& c.disks@ =~= Seq::<DiskConfig>::empty()
    &&& c.network is None
    &&& c.extra_args@ =~= Seq::<String>::empty()
    &&& c.raw_script@ == Seq::<char>::empty()
}

impl Default for QemuConfig {
    /// Type default: nothing recognized, empty script.
    fn default() -> (r: QemuConfig)
        ensures
            spec_config_is_default(r),
    {
        QemuConfig {
            emulator: QemuEmulator::Unknown,
            memory_mb: 0,
            cpu_cores: 0,
            cpu_model: None,
            machine: None,
            vga: VgaType::Unknown,
            audio_devices: Vec::new(),
            enable_kvm: false,
            uefi: false,
            tpm: false,
            disks: Vec::new(),
            network: None,
            extra_args: Vec::new(),
            raw_script: String::new(),
        }
    }
}

impl QemuConfig {
    /// The first disk of the machine, when it has one.
    pub fn primary_disk(&self) -> (r: Option<&DiskConfig>)
        ensures
            match r {
                Some(d) => self.disks@.len() > 0 && *d == self.disks@[0],
                None => self.disks@.len() == 0,
            },
    {
        if self.disks.len() > 0 {
            Some(&self.disks[0])
        } else {
            None
        }
    }

    /// Whether the primary disk's format supports snapshots.
    pub fn supports_snapshots(&self) -> (r: bool)
        ensures
            r == (self.disks@.len() > 0 && self.disks@[0].format == DiskFormat::Qcow2),
    {
        match self.primary_disk() {
            Some(d) => d.format.supports_snapshots(),
            None => false,
        }
    }
}

} // verus!
