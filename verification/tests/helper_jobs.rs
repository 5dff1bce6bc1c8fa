use singboard::gateway::TunGateways;
use singboard::helper::{dispatch, request_of, request_of_line, HelperAction, HelperCommand, HelperEvent, HelperJob, HelperReply, HelperRequest};
use singboard::json::JsonValue;
use singboard::launchd::ServiceState;

fn req(cmd: Option<&str>, service: Option<&str>, config: Option<&str>) -> HelperRequest {
    HelperRequest {
        cmd: cmd.map(String::from),
        service: service.map(String::from),
        config_path: config.map(String::from),
        exe_path: None,
        singbox_path: None,
        working_dir: None,
        error_log: None,
    }
}

#[test]
fn dispatch_names_commands() {
    assert!(matches!(dispatch(&req(Some("ping"), None, None)), HelperCommand::Ping));
    match dispatch(&req(Some("status"), None, None)) {
        HelperCommand::Status { service } => assert_eq!(service, "sing-box"),
        _ => panic!("status"),
    }
    match dispatch(&req(Some("start"), Some("core"), Some("/etc/c.json"))) {
        HelperCommand::Start { service, config_path } => {
            assert_eq!(service, "core");
            assert_eq!(config_path, "/etc/c.json");
        }
        _ => panic!("start"),
    }
    match dispatch(&req(Some("restart"), None, None)) {
        HelperCommand::Restart { service, config_path } => {
            assert_eq!(service, "sing-box");
            assert_eq!(config_path, "");
        }
        _ => panic!("restart"),
    }
    assert!(matches!(dispatch(&req(Some("clear_proxy"), None, None)), HelperCommand::ClearProxy));
    match dispatch(&req(None, None, None)) {
        HelperCommand::Unknown { cmd } => assert_eq!(cmd, ""),
        _ => panic!("missing"),
    }
    match dispatch(&req(Some("PING"), None, None)) {
        HelperCommand::Unknown { cmd } => assert_eq!(cmd, "PING"),
        _ => panic!("case"),
    }
}

#[test]
fn ping_and_unknown_reply_at_once() {
    let (job, a) = HelperJob::begin(HelperCommand::Ping);
    assert!(job.is_finished());
    assert!(matches!(a, HelperAction::Reply(HelperReply::Pong)));
    let (_, a) = HelperJob::begin(HelperCommand::Unknown { cmd: "x".to_string() });
    match a {
        HelperAction::Reply(HelperReply::Error(e)) => assert_eq!(e, "未知指令: x"),
        _ => panic!(),
    }
}

/// A simulated machine: whether the plist exists, what `launchctl print`
/// says on each call, and what the configuration's gateways are.
struct Machine {
    plist: bool,
    prints: Vec<&'static str>,
    gateways: Option<(Option<&'static str>, Option<&'static str>)>,
    kickstart_ok: bool,
    log: Vec<String>,
}

fn run(cmd: HelperCommand, m: &mut Machine) -> HelperReply {
    let (mut job, mut a) = HelperJob::begin(cmd);
    let mut prints = m.prints.clone().into_iter();
    loop {
        let ev = match a {
            HelperAction::Reply(r) => return r,
            HelperAction::CheckFile(p) => {
                m.log.push(format!("check {p}"));
                HelperEvent::Exists(m.plist)
            }
            HelperAction::Launchctl(args) => {
                m.log.push(format!("launchctl {}", args.join(" ")));
                if args[0] == "print" {
                    HelperEvent::Ran { success: true, output: prints.next().unwrap_or("").to_string() }
                } else if args[0] == "kickstart" {
                    HelperEvent::Ran { success: m.kickstart_ok, output: "  boom \n".to_string() }
                } else {
                    HelperEvent::Ran { success: true, output: String::new() }
                }
            }
            HelperAction::Run(p, args) => {
                m.log.push(format!("{p} {}", args.join(" ")));
                HelperEvent::Ran { success: true, output: String::new() }
            }
            HelperAction::Sleep(ms) => {
                m.log.push(format!("sleep {ms}"));
                HelperEvent::Slept
            }
            HelperAction::WriteFile(p, _) => {
                m.log.push(format!("write {p}"));
                m.plist = true;
                HelperEvent::Written(Ok(()))
            }
            HelperAction::RemoveFile(p) => {
                m.log.push(format!("remove {p}"));
                m.plist = false;
                HelperEvent::Written(Ok(()))
            }
            HelperAction::ReadGateways(p) => {
                m.log.push(format!("gateways {p}"));
                HelperEvent::Gateways(m.gateways.map(|(a, b)| TunGateways {
                    ipv4: a.map(String::from),
                    ipv6: b.map(String::from),
                }))
            }
            HelperAction::SetDns(ips) => {
                m.log.push(format!("setdns {}", ips.join(",")));
                HelperEvent::Done
            }
            HelperAction::ClearDns => {
                m.log.push("cleardns".to_string());
                HelperEvent::Done
            }
            HelperAction::ClearProxy => {
                m.log.push("clearproxy".to_string());
                HelperEvent::Done
            }
        };
        a = job.step(ev);
    }
}

fn machine() -> Machine {
    Machine { plist: true, prints: vec![], gateways: None, kickstart_ok: true, log: vec![] }
}

#[test]
fn status_of_services() {
    let mut m = machine();
    m.plist = false;
    match run(HelperCommand::Status { service: "sing-box".to_string() }, &mut m) {
        HelperReply::Status { state, pid } => {
            assert_eq!(state, ServiceState::NotInstalled);
            assert_eq!(pid, None);
        }
        _ => panic!(),
    }
    let mut m = machine();
    m.prints = vec!["system/com.singboard.sing-box = {\n\tstate = running\n\tpid = 4242\n}\n"];
    match run(HelperCommand::Status { service: "sing-box".to_string() }, &mut m) {
        HelperReply::Status { state, pid } => {
            assert_eq!(state, ServiceState::Running);
            assert_eq!(pid, Some(4242));
        }
        _ => panic!(),
    }
    assert_eq!(m.log, vec![
        "check /Library/LaunchDaemons/com.singboard.sing-box.plist".to_string(),
        "launchctl print system/com.singboard.sing-box".to_string(),
    ]);
}

#[test]
fn start_sets_gateway_dns() {
    let mut m = machine();
    m.prints = vec!["pid = 77"];
    m.gateways = Some((Some("172.19.0.1"), Some("fdfe:dcba:9876::1")));
    let r = run(HelperCommand::Start { service: "sing-box".to_string(), config_path: "/c.json".to_string() }, &mut m);
    assert!(matches!(r, HelperReply::Done));
    assert!(m.log.contains(&"launchctl bootstrap system /Library/LaunchDaemons/com.singboard.sing-box.plist".to_string()));
    assert!(m.log.contains(&"launchctl kickstart -k system/com.singboard.sing-box".to_string()));
    assert!(m.log.contains(&"sleep 2000".to_string()));
    assert_eq!(m.log.last().unwrap(), "setdns 172.19.0.1,fdfe:dcba:9876::1");
}

#[test]
fn start_failures() {
    let mut m = machine();
    m.plist = false;
    match run(HelperCommand::Start { service: "s".to_string(), config_path: String::new() }, &mut m) {
        HelperReply::Error(e) => assert_eq!(e, "service_not_found"),
        _ => panic!(),
    }
    let mut m = machine();
    m.kickstart_ok = false;
    match run(HelperCommand::Start { service: "s".to_string(), config_path: String::new() }, &mut m) {
        HelperReply::Error(e) => assert_eq!(e, "启动失败: boom"),
        _ => panic!(),
    }
    let mut m = machine();
    m.prints = vec!["state = not running"];
    match run(HelperCommand::Start { service: "s".to_string(), config_path: "/c".to_string() }, &mut m) {
        HelperReply::Error(e) => assert_eq!(e, "服务启动后立即退出，可能是配置文件有误，请检查配置"),
        _ => panic!(),
    }
}

#[test]
fn start_gives_up_waiting_after_twenty_checks() {
    let mut m = machine();
    m.plist = true;
    let mut job_plist_gone = machine();
    job_plist_gone.plist = false;
    let (mut job, _) = HelperJob::begin(HelperCommand::Start { service: "s".to_string(), config_path: String::new() });
    let mut a = job.step(HelperEvent::Exists(true));
    a = match a { HelperAction::Launchctl(_) => job.step(HelperEvent::Ran { success: true, output: String::new() }), _ => panic!() };
    assert!(matches!(a, HelperAction::Launchctl(_)));
    a = job.step(HelperEvent::Ran { success: true, output: String::new() });
    let mut checks = 0;
    loop {
        match a {
            HelperAction::Sleep(250) => a = job.step(HelperEvent::Slept),
            HelperAction::CheckFile(_) => {
                checks += 1;
                a = job.step(HelperEvent::Exists(false));
            }
            HelperAction::Reply(HelperReply::Done) => break,
            _ => panic!(),
        }
    }
    assert_eq!(checks, 20);
    let _ = m;
}

#[test]
fn stop_always_clears_dns() {
    let mut m = machine();
    m.prints = vec!["pid = 5"; 40];
    let r = run(HelperCommand::Stop { service: "sing-box".to_string() }, &mut m);
    assert!(matches!(r, HelperReply::Done));
    assert_eq!(m.log[0], "launchctl kill TERM system/com.singboard.sing-box");
    assert_eq!(m.log.iter().filter(|l| l.as_str() == "sleep 500").count(), 30);
    assert_eq!(m.log.last().unwrap(), "cleardns");
    let mut m = machine();
    m.prints = vec!["pid = 5", "state = exited"];
    run(HelperCommand::Stop { service: "sing-box".to_string() }, &mut m);
    assert_eq!(m.log.iter().filter(|l| l.as_str() == "sleep 500").count(), 2);
    assert_eq!(m.log.last().unwrap(), "cleardns");
}

#[test]
fn restart_stops_then_starts() {
    let mut m = machine();
    m.prints = vec!["", "pid = 9"];
    let r = run(HelperCommand::Restart { service: "sing-box".to_string(), config_path: String::new() }, &mut m);
    assert!(matches!(r, HelperReply::Done));
    let clear = m.log.iter().position(|l| l == "cleardns").unwrap();
    let kick = m.log.iter().position(|l| l.starts_with("launchctl kickstart")).unwrap();
    assert!(clear < kick);
    assert_eq!(m.log[clear + 1], "sleep 500");
}

#[test]
fn uninstall_stops_and_removes() {
    let mut m = machine();
    m.prints = vec![""];
    let r = run(HelperCommand::Uninstall { service: "sing-box".to_string() }, &mut m);
    assert!(matches!(r, HelperReply::Done));
    let n = m.log.len();
    assert_eq!(m.log[n - 4], "cleardns");
    assert_eq!(m.log[n - 3], "launchctl bootout system/com.singboard.sing-box");
    assert_eq!(m.log[n - 1], "remove /Library/LaunchDaemons/com.singboard.sing-box.plist");
    assert!(!m.plist);
}

#[test]
fn uninstall_reports_remove_failure() {
    let (mut job, _) = HelperJob::begin(HelperCommand::Uninstall { service: "s".to_string() });
    let mut a = job.step(HelperEvent::Ran { success: true, output: String::new() });
    loop {
        a = match a {
            HelperAction::Sleep(_) => job.step(HelperEvent::Slept),
            HelperAction::CheckFile(_) => job.step(HelperEvent::Exists(true)),
            HelperAction::Launchctl(_) => job.step(HelperEvent::Ran { success: true, output: String::new() }),
            HelperAction::ClearDns => job.step(HelperEvent::Done),
            HelperAction::RemoveFile(_) => job.step(HelperEvent::Written(Err("Permission denied".to_string()))),
            HelperAction::Reply(HelperReply::Error(e)) => {
                assert_eq!(e, "删除 plist 失败: Permission denied");
                break;
            }
            _ => panic!(),
        };
    }
}

#[test]
fn install_writes_plist_and_loads_it() {
    let cmd = HelperCommand::Install {
        service: "sing-box".to_string(),
        exe_path: "/Applications/Singboard.app/Contents/MacOS/singboard".to_string(),
        singbox_path: "/opt/sing-box".to_string(),
        config_path: "/etc/sb/config.json".to_string(),
        working_dir: "  ".to_string(),
        error_log: "/tmp/err.log".to_string(),
    };
    let (mut job, a) = HelperJob::begin(cmd);
    match &a {
        HelperAction::WriteFile(p, content) => {
            assert_eq!(p, "/Library/LaunchDaemons/com.singboard.sing-box.plist");
            assert!(content.contains("<key>WorkingDirectory</key>\n<string>/etc/sb</string>"));
        }
        _ => panic!(),
    }
    let a = job.step(HelperEvent::Written(Ok(())));
    match a {
        HelperAction::Run(p, args) => {
            assert_eq!(p, "chown");
            assert_eq!(args, vec!["root:wheel".to_string(), "/Library/LaunchDaemons/com.singboard.sing-box.plist".to_string()]);
        }
        _ => panic!(),
    }
    let a = job.step(HelperEvent::Ran { success: true, output: String::new() });
    assert!(matches!(a, HelperAction::Run(ref p, _) if p == "chmod"));
    let a = job.step(HelperEvent::Ran { success: true, output: String::new() });
    assert!(matches!(a, HelperAction::Launchctl(ref v) if v[0] == "bootout"));
    let a = job.step(HelperEvent::Ran { success: true, output: String::new() });
    assert!(matches!(a, HelperAction::Launchctl(ref v) if v[0] == "bootstrap"));
    let a = job.step(HelperEvent::Ran { success: false, output: "warn".to_string() });
    assert!(matches!(a, HelperAction::Reply(HelperReply::Done)));
    assert!(job.is_finished());
}

#[test]
fn install_reports_write_failure() {
    let cmd = HelperCommand::Install {
        service: "s".to_string(),
        exe_path: String::new(),
        singbox_path: String::new(),
        config_path: String::new(),
        working_dir: String::new(),
        error_log: String::new(),
    };
    let (mut job, _) = HelperJob::begin(cmd);
    match job.step(HelperEvent::Written(Err("Read-only file system".to_string()))) {
        HelperAction::Reply(HelperReply::Error(e)) => assert_eq!(e, "写入 plist 失败: Read-only file system"),
        _ => panic!(),
    }
}

#[test]
fn clear_proxy_job() {
    let mut m = machine();
    let r = run(HelperCommand::ClearProxy, &mut m);
    assert!(matches!(r, HelperReply::Done));
    assert_eq!(m.log, vec!["clearproxy".to_string()]);
}

#[test]
fn requests_read_from_socket_lines() {
    let r = request_of_line(r#"{"cmd": "start", "service": "sb", "config_path": "/c.json", "exe_path": 3}"#).unwrap();
    assert_eq!(r.cmd, Some("start".to_string()));
    assert_eq!(r.service, Some("sb".to_string()));
    assert_eq!(r.config_path, Some("/c.json".to_string()));
    assert_eq!(r.exe_path, None);
    assert_eq!(r.singbox_path, None);
    assert!(matches!(dispatch(&r), HelperCommand::Start { ref service, ref config_path } if service == "sb" && config_path == "/c.json"));
    let r = request_of_line("[\"cmd\", \"ping\"]").unwrap();
    assert_eq!(r.cmd, None);
    assert!(matches!(dispatch(&r), HelperCommand::Unknown { ref cmd } if cmd.is_empty()));
    let e = match request_of_line("{\"cmd\": ") {
        Err(e) => e,
        Ok(_) => panic!("a cut line is no request"),
    };
    assert!(e.contains("line 1"), "{e}");
    assert!(request_of_line("not json").is_err());
}

#[test]
fn request_fields_are_string_members() {
    let v = JsonValue::Object(vec![
        ("cmd".to_string(), JsonValue::Str("status".to_string())),
        ("working_dir".to_string(), JsonValue::Str("/w".to_string())),
        ("error_log".to_string(), JsonValue::Bool(false)),
    ]);
    let r = request_of(&v);
    assert_eq!(r.cmd, Some("status".to_string()));
    assert_eq!(r.working_dir, Some("/w".to_string()));
    assert_eq!(r.error_log, None);
    assert_eq!(r.service, None);
    assert_eq!(request_of(&JsonValue::Null).cmd, None);
}
