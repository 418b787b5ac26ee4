//! Synthesis behavior: targeted field changes on concrete scripts.

use vm_curator::launch_parser::extract_cpu_cores;
use vm_curator::launch_parser::extract_memory;
use vm_curator::launch_parser::extract_network;
use vm_curator::launch_parser::extract_vga;
use vm_curator::qemu_config::PortForward;
use vm_curator::qemu_config::PortProtocol;
use vm_curator::qemu_config::VgaType;
use vm_curator::rewrite::FieldChange;
use vm_curator::rewrite::NetBackend;
use vm_curator::rewrite::NetworkChange;
use vm_curator::rewrite::RewriteError;
use vm_curator::rewrite::rewrite;
use vm_curator::rewrite::rewrite_cpu_cores;
use vm_curator::rewrite::rewrite_memory;
use vm_curator::rewrite::rewrite_network;
use vm_curator::rewrite::rewrite_vga;

#[test]
fn memory_rewrite_replaces_only_the_digits() {
    let script = "#!/bin/sh\nexec qemu-system-i386 -m 512 -vga cirrus";
    let out = rewrite_memory(script, 1024).unwrap();
    assert_eq!(out, "#!/bin/sh\nexec qemu-system-i386 -m 1024 -vga cirrus");
    assert_eq!(extract_memory(&out), Some(1024));
}

#[test]
fn memory_rewrite_inserts_before_emulator_line() {
    let script = "#!/bin/sh\nexec qemu-system-i386 -vga cirrus";
    let out = rewrite_memory(script, 256).unwrap();
    assert_eq!(out, "#!/bin/sh\n    -m 256 \\\nexec qemu-system-i386 -vga cirrus");
}

#[test]
fn memory_rewrite_is_idempotent() {
    let script = "#!/bin/sh\nexec qemu-system-i386 -m 512";
    let once = rewrite_memory(script, 2048).unwrap();
    let twice = rewrite_memory(&once, 2048).unwrap();
    assert_eq!(once, twice);
}

#[test]
fn cores_rewrite_behaves_like_memory() {
    let script = "qemu-system-ppc -smp 2 -m 512";
    let out = rewrite_cpu_cores(script, 8).unwrap();
    assert_eq!(out, "qemu-system-ppc -smp 8 -m 512");
    assert_eq!(extract_cpu_cores(&out), Some(8));
    let twice = rewrite_cpu_cores(&out, 8).unwrap();
    assert_eq!(out, twice);
}

#[test]
fn vga_rewrite_edits_the_effective_flag() {
    let script = "qemu-system-i386 -vga std\nqemu-system-i386 -vga cirrus";
    let out = rewrite_vga(script, VgaType::Virtio).unwrap();
    assert_eq!(out, "qemu-system-i386 -vga std\nqemu-system-i386 -vga virtio");
    assert_eq!(extract_vga(&out), Some(VgaType::Virtio));
    let twice = rewrite_vga(&out, VgaType::Virtio).unwrap();
    assert_eq!(out, twice);
}

#[test]
fn vga_rewrite_edits_the_last_flag_of_a_line() {
    let script = "qemu-system-i386 -vga std -vga cirrus";
    let out = rewrite_vga(script, VgaType::Qxl).unwrap();
    assert_eq!(out, "qemu-system-i386 -vga std -vga qxl");
    assert_eq!(extract_vga(&out), Some(VgaType::Qxl));
}

#[test]
fn vga_rewrite_round_trips_through_extraction() {
    let script = "#!/bin/sh\nexec qemu-system-x86_64 -m 512";
    let out = rewrite_vga(script, VgaType::Qxl).unwrap();
    assert_eq!(extract_vga(&out), Some(VgaType::Qxl));
}

#[test]
fn missing_anchor_is_an_explicit_error() {
    let script = "#!/bin/sh\necho nothing here";
    assert_eq!(rewrite_memory(script, 512), Err(RewriteError::RewriteTargetNotFound));
    assert_eq!(rewrite_vga(script, VgaType::Cirrus), Err(RewriteError::RewriteTargetNotFound));
    assert_eq!(
        rewrite_network(script, "e1000", NetBackend::UserNat, None, &Vec::new()),
        Err(RewriteError::RewriteTargetNotFound)
    );
}

#[test]
fn network_insert_goes_immediately_before_emulator_line() {
    let script = "#!/bin/sh\ncd somewhere\nexec qemu-system-i386 -m 512";
    let out = rewrite_network(script, "e1000", NetBackend::UserNat, None, &Vec::new()).unwrap();
    let lines: Vec<&str> = out.lines().collect();
    assert_eq!(lines.len(), 4);
    assert_eq!(lines[0], "#!/bin/sh");
    assert_eq!(lines[1], "cd somewhere");
    assert_eq!(lines[2], "    -nic user,model=e1000 \\");
    assert_eq!(lines[3], "exec qemu-system-i386 -m 512");
}

#[test]
fn network_rewrite_serializes_port_forwards() {
    let script = "exec qemu-system-i386 -m 512";
    let fwds = vec![
        PortForward { protocol: PortProtocol::Tcp, host_port: 2222, guest_port: 22 },
        PortForward { protocol: PortProtocol::Udp, host_port: 5353, guest_port: 53 },
    ];
    let out = rewrite_network(script, "virtio", NetBackend::UserNat, None, &fwds).unwrap();
    assert_eq!(
        out,
        "    -nic user,model=virtio,hostfwd=tcp::2222-:22,hostfwd=udp::5353-:53 \\\nexec qemu-system-i386 -m 512"
    );
    let nc = extract_network(&out).unwrap();
    assert!(nc.user_net);
}

#[test]
fn network_rewrite_replaces_existing_clause() {
    let script = "exec qemu-system-i386 \\\n    -nic user,model=e1000 \\\n    -m 512";
    let out = rewrite_network(script, "rtl8139", NetBackend::Bridge, Some("br0"), &Vec::new())
        .unwrap();
    assert_eq!(out, "exec qemu-system-i386 \\\n    -nic bridge,br=br0,model=rtl8139 \\\n    -m 512");
    let nc = extract_network(&out).unwrap();
    assert_eq!(nc.model, "rtl8139");
    assert!(!nc.user_net);
    assert_eq!(nc.bridge, Some(String::from("br0")));
}

#[test]
fn network_rewrite_is_idempotent() {
    let script = "exec qemu-system-i386 -m 512\n    -net nic,model=e1000 \\\n    -net user \\";
    let once = rewrite_network(script, "virtio", NetBackend::UserNat, None, &Vec::new()).unwrap();
    let twice = rewrite_network(&once, "virtio", NetBackend::UserNat, None, &Vec::new()).unwrap();
    assert_eq!(once, twice);
}

#[test]
fn network_disable_removes_every_network_line() {
    let script = "exec qemu-system-i386 -m 512\n    -nic user,model=e1000 \\\n# done";
    let out = rewrite_network(script, "e1000", NetBackend::Disabled, None, &Vec::new()).unwrap();
    assert_eq!(out, "exec qemu-system-i386 -m 512\n# done");
    assert_eq!(extract_network(&out), None);
}

#[test]
fn passt_backend_keeps_the_model_token() {
    let script = "exec qemu-system-i386 -m 512";
    let out = rewrite_network(script, "virtio", NetBackend::Passt, None, &Vec::new()).unwrap();
    assert_eq!(out, "    -nic passt,model=virtio \\\nexec qemu-system-i386 -m 512");
}

#[test]
fn field_change_dispatch() {
    let script = "exec qemu-system-i386 -m 512 -smp 2 -vga std";
    let m = rewrite(script, &FieldChange::Memory(768)).unwrap();
    assert_eq!(extract_memory(&m), Some(768));
    let c = rewrite(script, &FieldChange::CpuCores(4)).unwrap();
    assert_eq!(extract_cpu_cores(&c), Some(4));
    let v = rewrite(script, &FieldChange::Vga(VgaType::Vmware)).unwrap();
    assert_eq!(extract_vga(&v), Some(VgaType::Vmware));
    let n = rewrite(
        script,
        &FieldChange::Network(NetworkChange {
            model: String::from("e1000"),
            backend: NetBackend::UserNat,
            bridge: None,
            port_forwards: Vec::new(),
        }),
    )
    .unwrap();
    let nc = extract_network(&n).unwrap();
    assert_eq!(nc.model, "e1000");
}
