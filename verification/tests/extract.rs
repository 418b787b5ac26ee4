//! Extraction behavior on concrete scripts.

use vm_curator::launch_parser::extract_audio_devices;
use vm_curator::launch_parser::extract_cpu_cores;
use vm_curator::launch_parser::extract_cpu_model;
use vm_curator::launch_parser::extract_disks;
use vm_curator::launch_parser::extract_drive_file;
use vm_curator::launch_parser::extract_emulator;
use vm_curator::launch_parser::extract_extra_args;
use vm_curator::launch_parser::extract_machine;
use vm_curator::launch_parser::extract_memory;
use vm_curator::launch_parser::extract_network;
use vm_curator::launch_parser::extract_path_from_arg;
use vm_curator::launch_parser::extract_vga;
use vm_curator::launch_parser::guess_disk_format;
use vm_curator::launch_parser::parse_launch_script;
use vm_curator::launch_parser::resolve_path;
use vm_curator::qemu_config::AudioDevice;
use vm_curator::qemu_config::DiskFormat;
use vm_curator::qemu_config::QemuEmulator;
use vm_curator::qemu_config::VgaType;

#[test]
fn test_extract_memory() {
    assert_eq!(extract_memory("-m 512"), Some(512));
    assert_eq!(extract_memory("-m 2G"), Some(2048));
    assert_eq!(extract_memory("qemu -m 1024 -cpu host"), Some(1024));
}

#[test]
fn test_extract_emulator() {
    assert_eq!(
        extract_emulator("#!/bin/bash\nqemu-system-i386 -m 512"),
        Some(QemuEmulator::I386)
    );
    assert_eq!(
        extract_emulator("qemu-system-ppc -M mac99"),
        Some(QemuEmulator::Ppc)
    );
}

#[test]
fn test_extract_vga() {
    assert_eq!(extract_vga("-vga cirrus -m 512"), Some(VgaType::Cirrus));
    assert_eq!(extract_vga("-vga virtio"), Some(VgaType::Virtio));
}

#[test]
fn memory_under_64_is_gigabytes() {
    assert_eq!(extract_memory("-m 4"), Some(4096));
    assert_eq!(extract_memory("-m 64"), Some(64));
    assert_eq!(extract_memory("-m 63"), Some(64512));
}

#[test]
fn memory_suffix_must_follow_the_digits() {
    assert_eq!(extract_memory("-m 2G"), Some(2048));
    assert_eq!(extract_memory("-m 512 -device Gadget"), Some(512));
    assert_eq!(extract_memory("-m 512 -vga std"), Some(512));
}

#[test]
fn memory_skips_comment_lines() {
    assert_eq!(extract_memory("# -m 512\n-m 256"), Some(256));
    assert_eq!(extract_memory("# -m 512"), None);
}

#[test]
fn last_vga_flag_wins() {
    assert_eq!(
        extract_vga("qemu-system-i386 -vga std\nqemu-system-i386 -vga cirrus"),
        Some(VgaType::Cirrus)
    );
    assert_eq!(extract_vga("-vga std -vga cirrus"), Some(VgaType::Cirrus));
    assert_eq!(extract_vga("-vga weird"), Some(VgaType::Unknown));
    assert_eq!(extract_vga("-m 512"), None);
}

#[test]
fn cores_and_models() {
    assert_eq!(extract_cpu_cores("-smp 4 -m 512"), Some(4));
    assert_eq!(extract_cpu_cores("-m 512"), None);
    assert_eq!(extract_cpu_model("-cpu pentium3 -m 1"), Some(String::from("pentium3")));
    assert_eq!(extract_cpu_model("-m 1"), None);
    assert_eq!(extract_machine("-M mac99 -m 1"), Some(String::from("mac99")));
    assert_eq!(extract_machine("-machine q35,accel=kvm"), Some(String::from("q35")));
    assert_eq!(extract_machine("-m 1"), None);
}

#[test]
fn audio_devices_collect_all_matches() {
    let devices = extract_audio_devices("-device sb16 -device intel-hda -device hda-duplex");
    assert_eq!(devices, vec![AudioDevice::Sb16, AudioDevice::Hda]);
    let none = extract_audio_devices("-m 512");
    assert!(none.is_empty());
    let es = extract_audio_devices("-device es1370 -device AC97");
    assert_eq!(es, vec![AudioDevice::Ac97, AudioDevice::Es1370]);
}

#[test]
fn placeholder_resolves_under_vm_directory() {
    assert_eq!(
        resolve_path("$DIR/c.img", "/vms/win95"),
        String::from("/vms/win95/c.img")
    );
    assert_eq!(
        resolve_path("${DIR}/c.img", "/vms/win95"),
        String::from("/vms/win95/c.img")
    );
    assert_eq!(
        resolve_path("$(dirname $0)/c.img", "/vms/win95"),
        String::from("/vms/win95/c.img")
    );
    assert_eq!(resolve_path("/abs/c.img", "/vms/win95"), String::from("/abs/c.img"));
    assert_eq!(resolve_path("c.img", "/vms/win95"), String::from("/vms/win95/c.img"));
}

#[test]
fn disks_fixed_slots_and_drive_flags() {
    let script = "qemu-system-i386 -hda \"$DIR/c.img\" -hdb d.qcow2\n-drive file=/data/e.vmdk,if=virtio";
    let disks = extract_disks(script, "/vms/box");
    assert_eq!(disks.len(), 3);
    assert_eq!(disks[0].path, "/vms/box/c.img");
    assert_eq!(disks[0].format, DiskFormat::Raw);
    assert_eq!(disks[0].interface, "ide");
    assert_eq!(disks[1].path, "/vms/box/d.qcow2");
    assert_eq!(disks[1].format, DiskFormat::Qcow2);
    assert_eq!(disks[1].interface, "ide");
    assert_eq!(disks[2].path, "/data/e.vmdk");
    assert_eq!(disks[2].format, DiskFormat::Vmdk);
    assert_eq!(disks[2].interface, "virtio");
}

#[test]
fn drive_file_and_path_arguments() {
    assert_eq!(
        extract_drive_file("-drive file=\"/a b/c.img\",if=scsi"),
        Some(String::from("/a b/c.img"))
    );
    assert_eq!(
        extract_drive_file("-drive file=/plain.img,media=disk"),
        Some(String::from("/plain.img"))
    );
    assert_eq!(extract_drive_file("-drive media=cdrom"), None);
    assert_eq!(extract_path_from_arg("  'quoted path' rest"), Some(String::from("quoted path")));
    assert_eq!(extract_path_from_arg("bare.img next"), Some(String::from("bare.img")));
    assert_eq!(extract_path_from_arg("-not-a-path"), None);
}

#[test]
fn disk_format_from_extension() {
    assert_eq!(guess_disk_format("/x/a.qcow2"), DiskFormat::Qcow2);
    assert_eq!(guess_disk_format("/x/a.img"), DiskFormat::Raw);
    assert_eq!(guess_disk_format("/x/a.vdi"), DiskFormat::Vdi);
    assert_eq!(guess_disk_format("/x/noext"), DiskFormat::Raw);
    assert_eq!(guess_disk_format("/x/.hidden"), DiskFormat::Raw);
}

#[test]
fn network_absent_without_flags() {
    assert_eq!(extract_network("qemu-system-i386 -m 512 -vga cirrus"), None);
}

#[test]
fn network_present_with_flags() {
    let nc = extract_network("-nic user,model=virtio,hostfwd=tcp::2222-:22").unwrap();
    assert_eq!(nc.model, "virtio-net");
    assert!(nc.user_net);
    assert_eq!(nc.bridge, None);

    let nb = extract_network("-net nic,model=rtl8139\n-net bridge,br=br0").unwrap();
    assert_eq!(nb.model, "rtl8139");
    assert!(!nb.user_net);
    assert_eq!(nb.bridge, Some(String::from("br0")));

    let plain = extract_network("-netdev tap,id=n0").unwrap();
    assert_eq!(plain.model, "");
    assert!(!plain.user_net);
}

#[test]
fn extra_args_recognized_verbatim() {
    let args = extract_extra_args("-display sdl -usb -rtc base=localtime");
    assert_eq!(
        args,
        vec![
            String::from("-display sdl"),
            String::from("-usb"),
            String::from("-rtc base=localtime"),
        ]
    );
    assert!(extract_extra_args("-m 512").is_empty());
}

#[test]
fn whole_script_end_to_end() {
    let config = parse_launch_script("/vms/box/launch.sh", "qemu-system-i386 -m 512 -vga cirrus");
    assert_eq!(config.emulator, QemuEmulator::I386);
    assert_eq!(config.memory_mb, 512);
    assert_eq!(config.vga, VgaType::Cirrus);
    assert!(config.disks.is_empty());
    assert_eq!(config.network, None);
    assert_eq!(config.raw_script, "qemu-system-i386 -m 512 -vga cirrus");
}

#[test]
fn absent_flags_leave_type_defaults() {
    let config = parse_launch_script("/vms/box/launch.sh", "#!/bin/sh\necho hello");
    assert_eq!(config.emulator, QemuEmulator::Unknown);
    assert_eq!(config.memory_mb, 0);
    assert_eq!(config.cpu_cores, 0);
    assert_eq!(config.cpu_model, None);
    assert_eq!(config.machine, None);
    assert_eq!(config.vga, VgaType::Unknown);
    assert!(config.audio_devices.is_empty());
    assert!(!config.enable_kvm);
    assert!(!config.uefi);
    assert!(!config.tpm);
    assert!(config.disks.is_empty());
    assert_eq!(config.network, None);
    assert!(config.extra_args.is_empty());
}

#[test]
fn boolean_features_scan_whole_script() {
    let config = parse_launch_script(
        "/v/launch.sh",
        "# uses OVMF firmware\nqemu-system-x86_64 -enable-kvm \\\n  -tpmdev passthrough",
    );
    assert!(config.enable_kvm);
    assert!(config.uefi);
    assert!(config.tpm);
}
