use singboard::launchd::{
    parse_launchctl_pid, plist_content, plist_label, plist_path, run_directory, service_run_dir,
    service_status, service_target, ServiceState,
};

#[test]
fn labels_and_paths() {
    assert_eq!(plist_label("sing-box"), "com.singboard.sing-box");
    assert_eq!(plist_path("sing-box"), "/Library/LaunchDaemons/com.singboard.sing-box.plist");
    assert_eq!(service_target("core"), "system/com.singboard.core");
}

#[test]
fn plist_text_matches_the_template() {
    let (label, exe, service_name, run_dir, error_log, singbox_path, config_path) =
        ("com.singboard.sb", "/bin/app", "sb", "/etc/sb", "/tmp/e.log", "/opt/sing-box", "/etc/sb/c.json");
    let expected = format!(
        "<?xml version=\"1.0\" encoding=\"UTF-8\"?>\n\
<!DOCTYPE plist PUBLIC \"-//Apple//DTD PLIST 1.0//EN\"\n\
  \"http://www.apple.com/DTDs/PropertyList-1.0.dtd\">\n\
<plist version=\"1.0\">\n\
<dict>\n\
    <key>Label</key>\n\
    <string>{label}</string>\n\
    <key>ProgramArguments</key>\n\
    <array>\n\
        <string>{exe}</string>\n\
        <string>service</string>\n\
        <string>{service_name}</string>\n\
    </array>\n\
    <key>WorkingDirectory</key>\n\
    <string>{run_dir}</string>\n\
    <key>RunAtLoad</key>\n\
    <false/>\n\
    <key>KeepAlive</key>\n\
    <false/>\n\
    <key>StandardErrorPath</key>\n\
    <string>{error_log}</string>\n\
    <key>EnvironmentVariables</key>\n\
    <dict>\n\
        <key>SINGBOARD_SINGBOX_PATH</key>\n\
        <string>{singbox_path}</string>\n\
        <key>SINGBOARD_CONFIG_PATH</key>\n\
        <string>{config_path}</string>\n\
        <key>SINGBOARD_WORKING_DIR</key>\n\
        <string>{run_dir}</string>\n\
    </dict>\n\
</dict>\n\
</plist>\n"
    );
    assert_eq!(plist_content(label, exe, service_name, run_dir, error_log, singbox_path, config_path), expected);
}

#[test]
fn working_directory_choice() {
    assert_eq!(service_run_dir(" /work ", "/etc/sb/config.json"), "/work");
    assert_eq!(service_run_dir("", "/etc/sb/config.json"), "/etc/sb");
    assert_eq!(service_run_dir("", "config.json"), ".");
    assert_eq!(service_run_dir("", ""), ".");
    assert_eq!(service_run_dir("", "/"), ".");
    assert_eq!(service_run_dir("", "/config.json"), "/");
    assert_eq!(service_run_dir("\t", "rel/dir/c.json"), "rel/dir");
    assert_eq!(service_run_dir("", "a//b"), "a");
    assert_eq!(service_run_dir("", "a/b/"), "a");
    assert_eq!(service_run_dir("", "a/"), ".");
    assert_eq!(service_run_dir("", "/etc/sb/"), "/etc");
    assert_eq!(run_directory("  ", Some("/a".to_string())), "/a");
    assert_eq!(run_directory("", Some(String::new())), ".");
    assert_eq!(run_directory("", None), ".");
}

#[test]
fn pid_of_launchctl_print() {
    let out = "system/com.singboard.sing-box = {\n\tactive count = 1\n\tpath = /Library/x.plist\n\tstate = running\n\n\tprogram = /bin/x\n\tpid = 812\n\tpid = 9\n}";
    assert_eq!(parse_launchctl_pid(out), Some(812));
    assert_eq!(parse_launchctl_pid("\tpid = abc\n\tpid = 7\r\n"), Some(7));
    assert_eq!(parse_launchctl_pid("\tpid=7"), None);
    assert_eq!(parse_launchctl_pid("\tpid = +7 = 8"), Some(7));
    assert_eq!(parse_launchctl_pid("state = not running"), None);
    assert_eq!(parse_launchctl_pid(""), None);
}

#[test]
fn status_from_print_output() {
    assert_eq!(service_status(false, "pid = 1"), (ServiceState::NotInstalled, None));
    assert_eq!(service_status(true, "pid = 1"), (ServiceState::Running, Some(1)));
    assert_eq!(service_status(true, "state = waiting"), (ServiceState::Stopped, None));
}
