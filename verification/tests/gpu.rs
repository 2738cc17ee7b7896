use screen_mirror::gpu::{
    adapter_for_display_device_name, adapter_for_monitor_handle, adapters, is_auto, luid_to_i64,
    outputs, print_adapters, resolve, resolve_receiver, AdapterRecord, GpuAdapter, GpuVendor,
    OutputRecord, SOFTWARE_FLAG,
};

#[test]
fn auto_selection_covers_blank_and_keyword() {
    assert!(is_auto(""));
    assert!(is_auto("  "));
    assert!(is_auto("Auto"));
    assert!(!is_auto("NVIDIA GeForce RTX 4060 Ti"));
}

#[test]
fn luid_keeps_the_signed_high_part() {
    assert_eq!(luid_to_i64(0, 0x0000_ABCD), 0x0000_ABCD);
    assert_eq!(luid_to_i64(1, 2), 0x1_0000_0002);
    assert_eq!(luid_to_i64(-1, 0), -4_294_967_296);
}

#[test]
fn vendor_ids_map_to_known_vendors() {
    let adapter = |vendor_id| GpuAdapter {
        index: 0,
        luid: 0,
        vendor_id,
        device_id: 0,
        description: String::new(),
    };
    assert_eq!(adapter(0x10DE).vendor(), GpuVendor::Nvidia);
    assert_eq!(adapter(0x1002).vendor(), GpuVendor::Amd);
    assert_eq!(adapter(0x8086).vendor(), GpuVendor::Intel);
    assert_eq!(adapter(0x1414).vendor(), GpuVendor::Other);
}

#[test]
fn summary_includes_pci_device_id_for_diagnostics() {
    let adapter = GpuAdapter {
        index: 2,
        luid: 42,
        vendor_id: 0x8086,
        device_id: 0xB080,
        description: "Intel Arc B390".to_string(),
    };

    assert!(adapter.summary().contains("vendor=0x8086"));
    assert!(adapter.summary().contains("device=0xB080"));
}

fn wide(text: &str) -> Vec<u16> {
    let mut units: Vec<u16> = text.encode_utf16().collect();
    units.resize(32, 0);
    units
}

fn record(index: u32, flags: u32, name: &str, handles: &[u64]) -> AdapterRecord {
    AdapterRecord {
        index,
        flags,
        luid_high: 0,
        luid_low: 100 + index,
        vendor_id: 0x10DE,
        device_id: 7,
        description: wide(name),
        outputs: handles
            .iter()
            .map(|handle| OutputRecord {
                device_name: wide(&format!("\\\\.\\DISPLAY{handle}")),
                monitor_handle: *handle,
            })
            .collect(),
    }
}

fn machine() -> Vec<AdapterRecord> {
    vec![
        record(0, 0, "GeForce RTX 4060", &[1, 2]),
        record(1, SOFTWARE_FLAG, "Basic Render Driver", &[]),
        record(2, 0, "Radeon Graphics", &[3]),
    ]
}

#[test]
fn software_adapters_are_left_out() {
    let found = adapters(&machine());
    assert_eq!(found.len(), 2);
    assert_eq!(found[0].description, "GeForce RTX 4060");
    assert_eq!(found[1].index, 2);
    assert_eq!(found[1].luid, 102);
    let lines = print_adapters(&found);
    assert_eq!(
        lines[0],
        "index=0 luid=100 vendor=0x10DE device=0x0007 name=GeForce RTX 4060"
    );
}

#[test]
fn a_gpu_is_found_by_index_name_or_part_of_it() {
    let found = adapters(&machine());
    assert!(resolve("auto", &found).is_none());
    assert_eq!(resolve("2", &found).unwrap().index, 2);
    assert_eq!(resolve("geforce rtx 4060", &found).unwrap().index, 0);
    assert_eq!(resolve("radeon", &found).unwrap().index, 2);
    assert!(resolve("Arc", &found).is_none());
}

#[test]
fn a_display_belongs_to_the_adapter_it_hangs_on() {
    let connected = outputs(&machine());
    assert_eq!(connected.len(), 3);
    assert_eq!(adapter_for_monitor_handle(3, &connected).unwrap().index, 2);
    assert!(adapter_for_monitor_handle(9, &connected).is_none());
    assert_eq!(
        adapter_for_display_device_name("\\\\.\\display2", &connected)
            .unwrap()
            .index,
        0
    );
    let found = adapters(&machine());
    assert_eq!(
        resolve_receiver("2", &found, &Vec::new(), &connected)
            .unwrap()
            .index,
        2
    );
}
