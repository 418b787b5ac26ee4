//! Model types, discovery, stores and application state on concrete values.

use vm_curator::app::App;
use vm_curator::app::Screen;
use vm_curator::app::BootMode;
use vm_curator::ascii_art::AsciiArtStore;
use vm_curator::discovery::DiscoveredVm;
use vm_curator::discovery::build_vm_record;
use vm_curator::discovery::group_vms_by_category;
use vm_curator::discovery::sort_vms_by_display_name;
use vm_curator::qemu_config::DiskConfig;
use vm_curator::qemu_config::DiskFormat;
use vm_curator::qemu_config::QemuConfig;
use vm_curator::qemu_config::QemuEmulator;
use vm_curator::qemu_config::VgaType;
use vm_curator::settings_help::SettingsHelpEntry;
use vm_curator::settings_help::SettingsHelpStore;
use vm_curator::snapshot::parse_disk_info;
use vm_curator::snapshot::parse_snapshot_list;
use vm_curator::usb::UsbDevice;

fn sample_vm(id: &str) -> DiscoveredVm {
    DiscoveredVm {
        id: String::from(id),
        path: String::from("/test"),
        launch_script: String::from("/test/launch.sh"),
        config: QemuConfig::default(),
        parse_success: true,
        parse_error: None,
    }
}

#[test]
fn test_usb_device_display() {
    let device = UsbDevice {
        vendor_id: 0x046d,
        product_id: 0xc077,
        vendor_name: "Logitech".to_string(),
        product_name: "M105 Mouse".to_string(),
        bus_num: 1,
        dev_num: 3,
        device_class: 0,
    };

    assert_eq!(device.display_name(), "Logitech M105 Mouse");
    assert!(!device.is_hub());
}

#[test]
fn test_qemu_args() {
    let device = UsbDevice {
        vendor_id: 0x046d,
        product_id: 0xc077,
        vendor_name: "Logitech".to_string(),
        product_name: "M105 Mouse".to_string(),
        bus_num: 1,
        dev_num: 3,
        device_class: 0,
    };

    let args = device.to_qemu_args();
    assert_eq!(args[0], "-device");
    assert!(args[1].contains("vendorid=0x046d"));
    assert!(args[1].contains("productid=0xc077"));
}

#[test]
fn test_display_name() {
    let vm = sample_vm("windows-95");
    assert_eq!(vm.display_name(), "Windows 95");
}

#[test]
fn usb_fallback_name_uses_hex_identifiers() {
    let device = UsbDevice {
        vendor_id: 0x046d,
        product_id: 0xc077,
        vendor_name: String::new(),
        product_name: String::new(),
        bus_num: 1,
        dev_num: 3,
        device_class: 9,
    };
    assert_eq!(device.display_name(), "USB Device 046d:c077");
    assert!(device.is_hub());
}

#[test]
fn test_parse_snapshot_list() {
    let output = r#"
Snapshot list:
ID        TAG               VM SIZE                DATE       VM CLOCK
1         fresh-install        512M 2024-01-15 10:30:45   00:05:30.123
2         after-drivers        768M 2024-01-16 14:20:00   00:15:45.456
"#;
    let snapshots = parse_snapshot_list(output).unwrap();
    assert_eq!(snapshots.len(), 2);
    assert_eq!(snapshots[0].name, "fresh-install");
    assert_eq!(snapshots[1].name, "after-drivers");
}

#[test]
fn snapshot_rows_carry_all_columns() {
    let output = "Snapshot list:\nID TAG VM SIZE DATE VM CLOCK\n7 base 256M 2023-02-03 08:00:01 00:00:09.000\n";
    let snapshots = parse_snapshot_list(output).unwrap();
    assert_eq!(snapshots.len(), 1);
    assert_eq!(snapshots[0].id, "7");
    assert_eq!(snapshots[0].size, "256M");
    assert_eq!(snapshots[0].date, "2023-02-03 08:00:01");
    assert_eq!(snapshots[0].vm_clock, "00:00:09.000");
}

#[test]
fn disk_info_fields_are_parsed() {
    let output = "image: a.qcow2\nfile format: qcow2\nvirtual size: 10 GiB\ndisk size: 2.5 GiB\ncluster_size: 65536\nbacking file: base.qcow2\n";
    let info = parse_disk_info(output).unwrap();
    assert_eq!(info.format, "qcow2");
    assert_eq!(info.virtual_size, "10 GiB");
    assert_eq!(info.disk_size, "2.5 GiB");
    assert_eq!(info.cluster_size, Some(String::from("65536")));
    assert_eq!(info.backing_file, Some(String::from("base.qcow2")));
}

#[test]
fn disk_info_missing_fields_stay_empty() {
    let info = parse_disk_info("file format: raw\n").unwrap();
    assert_eq!(info.format, "raw");
    assert_eq!(info.virtual_size, "");
    assert_eq!(info.cluster_size, None);
    assert_eq!(info.backing_file, None);
}

#[test]
fn snapshot_support_follows_primary_disk() {
    let mut config = QemuConfig::default();
    assert!(!config.supports_snapshots());
    config.disks.push(DiskConfig {
        path: String::from("/x/a.qcow2"),
        format: DiskFormat::Qcow2,
        interface: String::from("ide"),
    });
    config.disks.push(DiskConfig {
        path: String::from("/x/b.img"),
        format: DiskFormat::Raw,
        interface: String::from("ide"),
    });
    assert!(config.supports_snapshots());
    assert_eq!(config.primary_disk().unwrap().path, "/x/a.qcow2");
    assert!(DiskFormat::Qcow2.supports_snapshots());
    assert!(!DiskFormat::Vmdk.supports_snapshots());
}

#[test]
fn canonical_tables_round_trip() {
    assert_eq!(QemuEmulator::from_command("qemu-system-m68k"), QemuEmulator::M68k);
    assert_eq!(QemuEmulator::M68k.command(), "qemu-system-m68k");
    assert_eq!(VgaType::from_str("qxl"), VgaType::Qxl);
    assert_eq!(VgaType::Qxl.as_str(), "qxl");
    assert_eq!(VgaType::from_str("weird"), VgaType::Unknown);
    assert_eq!(DiskFormat::from_extension("vhd"), DiskFormat::Vhd);
    assert_eq!(DiskFormat::Vhd.extension(), "vhd");
    assert_eq!(DiskFormat::from_extension("weird"), DiskFormat::Raw);
}

#[test]
fn record_of_unreadable_script_is_marked() {
    let vm = build_vm_record(
        String::from("dos"),
        String::from("/lib/dos"),
        String::from("/lib/dos/launch.sh"),
        Err(String::from("permission denied")),
    );
    assert!(!vm.parse_success);
    assert_eq!(vm.parse_error, Some(String::from("permission denied")));
    assert_eq!(vm.config.emulator, QemuEmulator::Unknown);
}

#[test]
fn record_of_readable_script_is_extracted() {
    let vm = build_vm_record(
        String::from("dos"),
        String::from("/lib/dos"),
        String::from("/lib/dos/launch.sh"),
        Ok("qemu-system-i386 -m 32"),
    );
    assert!(vm.parse_success);
    assert_eq!(vm.parse_error, None);
    assert_eq!(vm.config.emulator, QemuEmulator::I386);
    assert_eq!(vm.config.memory_mb, 32768);
}

#[test]
fn vms_sort_by_display_name() {
    let vms = vec![sample_vm("windows-95"), sample_vm("dos"), sample_vm("mac-os9")];
    let sorted = sort_vms_by_display_name(vms);
    assert_eq!(sorted[0].id, "dos");
    assert_eq!(sorted[1].id, "mac-os9");
    assert_eq!(sorted[2].id, "windows-95");
}

#[test]
fn vms_group_by_category() {
    let vms = vec![
        sample_vm("windows-95"),
        sample_vm("mac-os9"),
        sample_vm("linux-fedora"),
        sample_vm("amiga"),
        sample_vm("ms-dos"),
    ];
    let groups = group_vms_by_category(&vms);
    assert_eq!(groups.len(), 4);
    assert_eq!(groups[0].0, "Windows / DOS");
    assert_eq!(groups[0].1.len(), 2);
    assert_eq!(groups[0].1[0].id, "windows-95");
    assert_eq!(groups[0].1[1].id, "ms-dos");
    assert_eq!(groups[1].0, "Macintosh");
    assert_eq!(groups[2].0, "Linux");
    assert_eq!(groups[3].0, "Other");
    assert_eq!(groups[3].1[0].id, "amiga");
}

#[test]
fn ascii_store_lookup_and_fallback() {
    let store = AsciiArtStore::load_embedded();
    assert!(store.get("windows-95").is_some());
    assert!(store.get("nonesuch").is_none());
    assert!(store.get_or_fallback("windows-3.1").contains("_____"));
    let tux = store.get_or_fallback("ubuntu-server");
    assert!(tux.contains("o_o"));
}

#[test]
fn ascii_store_merge_overrides() {
    let mut store = AsciiArtStore::load_embedded();
    let mut user = AsciiArtStore::default();
    user.art.push((String::from("windows-95"), String::from("custom art")));
    user.art.push((String::from("new-key"), String::from("new art")));
    store.merge(user);
    assert_eq!(store.get("windows-95"), Some("custom art"));
    assert_eq!(store.get("new-key"), Some("new art"));
}

#[test]
fn settings_help_lookup_chain() {
    let store = SettingsHelpStore::from_entries(vec![
        (
            String::from("memory"),
            SettingsHelpEntry {
                title: String::from("Memory"),
                description: String::from("How much RAM the machine gets."),
            },
        ),
        (
            String::from("default"),
            SettingsHelpEntry {
                title: String::from("Help"),
                description: String::from("Pick an item."),
            },
        ),
    ]);
    assert_eq!(store.get("memory").unwrap().title, "Memory");
    assert!(store.get("cpu").is_none());
    assert_eq!(store.get_or_default("memory").0, "Memory");
    assert_eq!(store.get_or_default("cpu"), ("Help", "Pick an item."));
    let empty = SettingsHelpStore::from_entries(Vec::new());
    assert_eq!(
        empty.get_or_default("cpu"),
        ("Settings", "Select a setting to see its description.")
    );
}

#[test]
fn app_selection_and_filter() {
    let vms = vec![sample_vm("windows-95"), sample_vm("mac-os9"), sample_vm("windows-xp")];
    let mut app = App::new(vms, AsciiArtStore::load_embedded());
    assert_eq!(app.selected_vm().unwrap().id, "windows-95");
    app.select_next();
    assert_eq!(app.selected_vm().unwrap().id, "mac-os9");
    app.select_prev();
    assert_eq!(app.selected_vm().unwrap().id, "windows-95");

    app.search_query = String::from("WIN");
    app.update_filter();
    assert_eq!(app.filtered_indices, vec![0, 2]);
    app.search_query = String::new();
    app.update_filter();
    assert_eq!(app.filtered_indices, vec![0, 1, 2]);
}

#[test]
fn app_usb_toggle_and_launch_options() {
    let mut app = App::new(Vec::new(), AsciiArtStore::default());
    app.usb_devices.push(UsbDevice {
        vendor_id: 1,
        product_id: 2,
        vendor_name: String::new(),
        product_name: String::new(),
        bus_num: 0,
        dev_num: 0,
        device_class: 0,
    });
    app.toggle_usb_device(0);
    assert_eq!(app.selected_usb_devices, vec![0]);
    let opts = app.get_launch_options();
    assert_eq!(opts.boot_mode, BootMode::Normal);
    assert_eq!(opts.usb_devices.len(), 1);
    assert_eq!(opts.usb_devices[0].vendor_id, 1);
    assert_eq!(opts.usb_devices[0].product_id, 2);
    app.toggle_usb_device(0);
    assert!(app.selected_usb_devices.is_empty());
}

#[test]
fn app_screen_stack() {
    let mut app = App::new(Vec::new(), AsciiArtStore::default());
    assert_eq!(app.screen, Screen::MainMenu);
    app.push_screen(Screen::Management);
    app.push_screen(Screen::Snapshots);
    assert_eq!(app.screen, Screen::Snapshots);
    app.pop_screen();
    assert_eq!(app.screen, Screen::Management);
    app.pop_screen();
    assert_eq!(app.screen, Screen::MainMenu);
    app.pop_screen();
    assert_eq!(app.screen, Screen::MainMenu);
}
