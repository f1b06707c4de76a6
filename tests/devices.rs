use sonicdeck::devices::{
    check_vb_cable_status, detect_vb_cable, find_vbcable_output_device_id, get_vb_cable_device_name, is_vb_cable_installed, recover_from_crash,
    Activation, CommMode, DefaultDeviceManager, PersistedState, VbCableInfo, VbCableStatus,
};

fn names(v: &[&str]) -> Vec<String> {
    v.iter().map(|s| s.to_string()).collect()
}

#[test]
fn test_is_active_default_false() {
    let mode = CommMode::new();
    let active = mode.is_active();
    let _ = active;
}

#[test]
fn fresh_comm_mode_is_off() {
    assert!(!CommMode::new().is_active());
}

#[test]
fn test_default_device_manager_creation() {
    let manager = DefaultDeviceManager { saved_device_id: None };
    assert!(manager.get_saved_device_id().is_none());

    let manager = DefaultDeviceManager { saved_device_id: Some("test-device-id".to_string()) };
    assert_eq!(manager.get_saved_device_id(), Some("test-device-id".to_string()));
}

#[test]
fn test_restore_without_saved_device() {
    let manager = DefaultDeviceManager { saved_device_id: None };
    let result = manager.restore_default();
    assert!(result.is_err());
    assert!(result.unwrap_err().contains("No device saved"));
}

#[test]
fn restore_hands_back_the_saved_device() {
    let manager = DefaultDeviceManager::save_current_default(Ok("dev-7".to_string())).unwrap();
    assert_eq!(manager.restore_default(), Ok("dev-7".to_string()));
    assert_eq!(
        DefaultDeviceManager::save_current_default(Err("no device".to_string())),
        Err("no device".to_string())
    );
}

#[test]
fn cable_detected_in_any_case() {
    let outputs = names(&["Speakers (Realtek)", "CABLE Input (VB-Audio Virtual Cable)"]);
    let inputs = names(&["Microphone", "CABLE Output (VB-Audio Virtual Cable)"]);
    assert!(is_vb_cable_installed(&outputs));
    let info = detect_vb_cable(&outputs, &inputs).unwrap();
    assert_eq!(info.output_device, "CABLE Input (VB-Audio Virtual Cable)");
    assert_eq!(info.input_device, Some("CABLE Output (VB-Audio Virtual Cable)".to_string()));
    assert_eq!(get_vb_cable_device_name(&outputs, &inputs), Some("CABLE Input (VB-Audio Virtual Cable)".to_string()));
}

#[test]
fn first_matching_device_wins() {
    let outputs = names(&["cable input A", "Cable Input B"]);
    let info = detect_vb_cable(&outputs, &Vec::new()).unwrap();
    assert_eq!(info, VbCableInfo { output_device: "cable input A".to_string(), input_device: None });
}

#[test]
fn no_cable_output_device_means_not_installed() {
    let outputs = names(&["Speakers", "Headphones"]);
    let inputs = names(&["CABLE Output (VB-Audio Virtual Cable)"]);
    assert!(!is_vb_cable_installed(&outputs));
    assert_eq!(detect_vb_cable(&outputs, &inputs), None);
    assert_eq!(check_vb_cable_status(&outputs, &inputs), VbCableStatus::NotInstalled);
    assert_eq!(get_vb_cable_device_name(&outputs, &inputs), None);
}

#[test]
fn status_carries_the_devices() {
    let outputs = names(&["CABLE Input"]);
    match check_vb_cable_status(&outputs, &Vec::new()) {
        VbCableStatus::Installed { info } => {
            assert_eq!(info.output_device, "CABLE Input");
            assert_eq!(info.input_device, None);
        }
        VbCableStatus::NotInstalled => panic!("cable not detected"),
    }
}

#[test]
fn activation_plans() {
    let mut mode = CommMode::new();
    let cable = "cable-id".to_string();
    let mic = "mic-id".to_string();
    assert_eq!(mode.activate(&cable, &cable), Activation::AlreadyCable);
    assert_eq!(
        mode.activate(&cable, &mic),
        Activation::Switch {
            saved: PersistedState { original_device_id: "mic-id".to_string(), is_active: true },
            target: "cable-id".to_string()
        }
    );
    mode.record_switch(mic.clone());
    assert!(mode.is_active());
    assert_eq!(mode.activate(&cable, &mic), Activation::AlreadyActive);
    assert_eq!(mode.deactivate(), Some("mic-id".to_string()));
    assert!(!mode.is_active());
    assert_eq!(mode.deactivate(), None);
}

#[test]
fn crash_recovery_restores_only_an_active_state() {
    let on = PersistedState { original_device_id: "mic".to_string(), is_active: true };
    let off = PersistedState { original_device_id: "mic".to_string(), is_active: false };
    assert_eq!(recover_from_crash(Some(on)), Some("mic".to_string()));
    assert_eq!(recover_from_crash(Some(off)), None);
    assert_eq!(recover_from_crash(None), None);
}

#[test]
fn cable_capture_device_found_by_name() {
    let devices = vec![
        ("Microphone (USB)".to_string(), "{mic}".to_string()),
        ("CABLE Output (VB-Audio Virtual Cable)".to_string(), "{cable}".to_string()),
        ("cable output 2".to_string(), "{cable2}".to_string()),
    ];
    assert_eq!(find_vbcable_output_device_id(&devices), Ok("{cable}".to_string()));
    let none = vec![("Microphone".to_string(), "{mic}".to_string())];
    assert_eq!(find_vbcable_output_device_id(&none), Err("VB-Cable Output device not found".to_string()));
}

#[test]
fn recording_a_switch_keeps_an_active_mode() {
    let mut mode = CommMode::new();
    mode.record_switch("mic-id".to_string());
    mode.record_switch("other-id".to_string());
    assert_eq!(mode.original_device_id, Some("mic-id".to_string()));
    let cable = "cable-id".to_string();
    assert_eq!(mode.activate(&cable, &"mic-id".to_string()), Activation::AlreadyActive);
    assert_eq!(mode.original_device_id, Some("mic-id".to_string()));
}

#[test]
fn cable_already_in_use_leaves_mode_off() {
    let mode = CommMode::new();
    let cable = "cable-id".to_string();
    assert_eq!(mode.activate(&cable, &cable), Activation::AlreadyCable);
    assert!(!mode.is_active());
}
