use game_passport::mouse::{
    endpoint_key, inspection, logitech_device, logitech_probe_error, physical_key, razer_device, razer_model,
    razer_probe_error, unsupported_diagnostic, Endpoint,
};

fn endpoint(vendor_id: u16, product_id: u16, instance: &str) -> Endpoint {
    Endpoint {
        path: "\\\\?\\hid#vid_046d&pid_c547&mi_02#7&1".into(),
        vendor_id,
        product_id,
        manufacturer: "Unknown".into(),
        product: "USB Receiver".into(),
        usage_page: 0xFF00,
        usage: 2,
        interface_number: 2,
        instance_id: instance.into(),
        physical_key: instance.into(),
    }
}

#[test]
fn razer_models_are_looked_up_by_product_id() {
    let m = razer_model(0x00C0).unwrap();
    assert_eq!(m.name, "Viper V3 Pro (wired)");
    assert_eq!(m.maximum_dpi, 35000);
    assert!(m.polling2);
    assert_eq!(m.polling_rates, vec![125, 250, 500, 1000, 2000, 4000, 8000]);
    let m = razer_model(0x00A6).unwrap();
    assert_eq!(m.connection, "wireless receiver");
    assert_eq!(m.polling_rates, vec![125, 500, 1000]);
    assert!(!m.polling2);
    assert!(razer_model(0x1234).is_none());
}

#[test]
fn endpoints_are_identified_by_serial_or_path() {
    assert_eq!(endpoint_key(0x046D, 0xC547, Some("ABC123"), "x"), "046d:c547:serial:ABC123");
    let path = "\\\\?\\HID#VID_046D&PID_C547&MI_02&Col01#7&1#{4d1e55b2}";
    assert_eq!(endpoint_key(0x046D, 0xC547, Some("  "), path), physical_key(path));
    assert_eq!(endpoint_key(0x046D, 0xC547, None, path), physical_key(path));
}

#[test]
fn device_diagnostics_describe_each_transport() {
    let e = endpoint(0x046D, 0xC547, "aa");
    let d = logitech_device(&e, 0xFF, vec![400, 800, 1600], vec![1000, 500], true);
    assert_eq!(d.manufacturer, "Logitech");
    assert_eq!(d.connection, "USB cable");
    assert_eq!(d.hid_usage, "HID++ device index 0xFF");
    assert_eq!(d.vendor_id, "046D");
    let caps = d.capabilities.dpi.unwrap();
    assert_eq!((caps.minimum, caps.maximum, caps.step), (400, 1600, 400));
    assert!(d.capabilities.can_read_polling_rate);
    let d = logitech_device(&e, 1, vec![800], vec![], true);
    assert_eq!(d.connection, "Logitech receiver");
    assert_eq!(d.hid_usage, "HID++ device index 0x01");
    assert!(!d.capabilities.can_apply_polling_rate);
    let model = razer_model(0x00B7).unwrap();
    let d = razer_device(&endpoint(0x1532, 0x00B7, "bb"), &model);
    assert_eq!(d.manufacturer, "Razer");
    assert_eq!(d.model, "DeathAdder V3 Pro");
    assert_eq!(d.hid_usage, "feature-report interface 2");
    assert_eq!(d.capabilities.dpi.unwrap().maximum, 30000);
    assert_eq!(
        logitech_probe_error(&e, None),
        "Logitech USB Receiver (VID 046D, PID C547, interface 2): HID++ Adjustable DPI недоступен"
    );
    assert_eq!(razer_probe_error(&endpoint(0x1532, 0x00B7, "bb"), "timeout"), "Razer USB Receiver (PID 00B7): timeout");
}

#[test]
fn inspection_selects_one_physical_mouse() {
    let devices = vec![unsupported_diagnostic(&endpoint(0x046D, 1, "aa")), unsupported_diagnostic(&endpoint(0x1532, 2, "bb"))];
    let (d, selection) = inspection(devices.clone(), vec!["probe".into()], &["bb".to_string(), "bb".to_string()]);
    assert_eq!(selection, Ok(Some(0)));
    assert_eq!(d.selected_instance_id, Some("bb".to_string()));
    assert!(!d.devices[0].selected && d.devices[1].selected);
    assert!(!d.selection_ambiguous);
    assert_eq!(d.probe_errors, vec!["probe".to_string()]);
    let (d, selection) = inspection(devices.clone(), vec![], &["aa".to_string(), "bb".to_string()]);
    assert_eq!(selection, Err("Multiple controllable gaming mice were detected.".to_string()));
    assert!(d.selection_ambiguous && d.selected_instance_id.is_none());
    let (d, selection) = inspection(devices, vec![], &[]);
    assert_eq!(selection, Ok(None));
    assert!(!d.selection_ambiguous && d.devices.iter().all(|x| !x.selected));
}
