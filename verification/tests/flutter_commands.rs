use apexforge::forge::flutter_api::{
    execute_afns_gui_global, extract_i32_value, extract_string_array, extract_string_value,
    get_afns_flutter_status, initialize_afns_flutter, AFNSFlutterFFI, AFNSFlutterManager,
};

#[test]
fn extracts_quoted_values() {
    let cmd = "create_window(id::string = \"main\", title::string = \"Hello\")";
    assert_eq!(extract_string_value(cmd, "id::string").unwrap(), "main");
    assert_eq!(extract_string_value(cmd, "title::string").unwrap(), "Hello");
    assert_eq!(
        extract_string_value(cmd, "text::string").unwrap_err(),
        format!("Could not find text::string in: {}", cmd)
    );
}

#[test]
fn extracts_numbers() {
    let cmd = "x::i32 = 42, y::i32 = -7, w::i32 = abc, z::i32 = 99999999999";
    assert_eq!(extract_i32_value(cmd, "x::i32").unwrap(), 42);
    assert_eq!(extract_i32_value(cmd, "y::i32").unwrap(), -7);
    assert_eq!(
        extract_i32_value(cmd, "w::i32").unwrap_err(),
        format!("Could not find w::i32 in: {}", cmd)
    );
    assert_eq!(
        extract_i32_value(cmd, "z::i32").unwrap_err(),
        "number too large to fit in target type"
    );
    assert_eq!(
        extract_i32_value("n::i32 = 4-2", "n::i32").unwrap_err(),
        "invalid digit found in string"
    );
}

#[test]
fn extracts_string_arrays() {
    let cmd = "items::Array<string> = [\"a\", \"b c\", , \"\"]";
    assert_eq!(
        extract_string_array(cmd, "items::Array<string>").unwrap(),
        vec!["a".to_string(), "b c".to_string()]
    );
    assert!(extract_string_array("items::Array<string> = none", "items::Array<string>").is_err());
}

#[test]
fn manager_creates_components() {
    let mut m = AFNSFlutterManager::new();
    let w = m.create_window("w1".to_string(), "Main".to_string(), 800, 600).unwrap();
    assert_eq!(
        w,
        "FlutterWindow(id::string = \"w1\", title::string = \"Main\", width::i32 = 800, height::i32 = 600, visible::bool = true)"
    );
    let b = m.create_button("b1".to_string(), "OK".to_string(), 10, 20).unwrap();
    assert_eq!(
        b,
        "FlutterButton(id::string = \"b1\", text::string = \"OK\", x::i32 = 10, y::i32 = 20, enabled::bool = true)"
    );
    let l = m
        .create_list_box("l1".to_string(), vec!["x".to_string(), "y".to_string()], 1, 2, 3, 4)
        .unwrap();
    assert_eq!(
        l,
        "FlutterListBox(id::string = \"l1\", items::Array<string> = [\"x\", \"y\"], x::i32 = 1, y::i32 = 2, width::i32 = 3, height::i32 = 4)"
    );
    let d = m.show_dialog("Note".to_string(), "Saved".to_string()).unwrap();
    assert_eq!(
        d,
        "FlutterDialog(title::string = \"Note\", message::string = \"Saved\", modal::bool = true)"
    );
    assert_eq!(
        m.get_status(),
        "AFNS Flutter Manager Status:\n- Windows: 1\n- Buttons: 1\n- TextFields: 0\n- ListBoxes: 1\n- Dialogs: 1\n- UI State: Dialog shown: 1"
    );
    assert!(m.get_performance_metrics().starts_with("AFNS Flutter Performance:\n- Component Count: 3\n"));
}

#[test]
fn commands_are_dispatched_by_name() {
    let mut m = AFNSFlutterManager::new();
    let r = m.execute_afns_command(
        "create_textfield(id::string = \"t\", placeholder::string = \"Name\", x::i32 = 1, y::i32 = 2, width::i32 = 30)",
    );
    assert_eq!(
        r.unwrap(),
        "FlutterTextField(id::string = \"t\", placeholder::string = \"Name\", x::i32 = 1, y::i32 = 2, width::i32 = 30, focused::bool = false)"
    );
    assert_eq!(m.execute_afns_command("noop()").unwrap(), "Command executed: noop()");
    assert!(m.execute_afns_command("create_button(id::string = \"b\")").is_err());
    assert!(m.get_status().contains("- TextFields: 1\n"));
    assert!(m.get_status().ends_with("UI State: TextField created: t"));
}

#[test]
fn workflow_reports_each_command_line() {
    let mut ffi = AFNSFlutterFFI::new();
    let code = "// setup\ncreate_window(id::string = \"w\", title::string = \"T\", width::i32 = 1, height::i32 = 2)\n\n  show_dialog(title::string = \"A\")  \nping";
    let report = ffi.execute_workflow(code);
    let lines: Vec<&str> = report.split('\n').collect();
    assert_eq!(lines.len(), 3);
    assert_eq!(
        lines[0],
        "✅ FlutterWindow(id::string = \"w\", title::string = \"T\", width::i32 = 1, height::i32 = 2, visible::bool = true)"
    );
    assert!(lines[1].starts_with("❌ Error: Could not find message::string in: "));
    assert_eq!(lines[2], "✅ Command executed: ping");
    assert!(ffi.get_manager_status().contains("- Windows: 1\n"));
    assert!(ffi.get_performance_metrics().contains("Component Count: 1"));
}

#[test]
fn global_manager_must_be_initialized() {
    let mut state: Option<AFNSFlutterFFI> = None;
    assert_eq!(
        execute_afns_gui_global(&mut state, "ping").unwrap_err(),
        "AFNS Flutter Manager not initialized"
    );
    assert!(get_afns_flutter_status(&state).is_err());
    initialize_afns_flutter(&mut state).unwrap();
    assert_eq!(execute_afns_gui_global(&mut state, "ping").unwrap(), "✅ Command executed: ping");
    assert!(get_afns_flutter_status(&state)
        .unwrap()
        .starts_with("AFNS Flutter Manager Status:\n- Windows: 0"));
}
