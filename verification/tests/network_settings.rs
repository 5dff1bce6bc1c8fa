use singboard::netsetup::{clear_dns_args, clear_proxy_args, parse_network_services, set_dns_args};
use singboard::proxy::{choose_proxy, client_proxy, contains_text, mac_proxy, needs_system_proxy, windows_proxy};

#[test]
fn network_services_listing() {
    let out = "An asterisk (*) denotes that a network service is disabled.\nWi-Fi\n*Bluetooth PAN\n   \nThunderbolt Bridge\n";
    assert_eq!(parse_network_services(out), vec!["Wi-Fi".to_string(), "Thunderbolt Bridge".to_string()]);
    let out = "header\r\nUSB LAN\r\nWi-Fi\r";
    assert_eq!(parse_network_services(out), vec!["USB LAN".to_string(), "Wi-Fi\r".to_string()]);
    assert_eq!(parse_network_services(""), Vec::<String>::new());
    assert_eq!(parse_network_services("only header"), Vec::<String>::new());
    assert_eq!(parse_network_services("h\n Wi-Fi"), vec![" Wi-Fi".to_string()]);
}

#[test]
fn networksetup_arguments() {
    let svc = "Wi-Fi".to_string();
    assert_eq!(
        set_dns_args(&svc, &vec!["172.19.0.1".to_string(), "fdfe::1".to_string()]),
        vec!["-setdnsservers", "Wi-Fi", "172.19.0.1", "fdfe::1"]
    );
    assert_eq!(clear_dns_args(&svc), vec!["-setdnsservers", "Wi-Fi", "Empty"]);
    let p = clear_proxy_args(&svc);
    assert_eq!(p[0], vec!["-setwebproxystate", "Wi-Fi", "off"]);
    assert_eq!(p[1], vec!["-setsecurewebproxystate", "Wi-Fi", "off"]);
    assert_eq!(p[2], vec!["-setsocksfirewallproxystate", "Wi-Fi", "off"]);
}

#[test]
fn windows_registry_proxy() {
    assert_eq!(windows_proxy(1, "127.0.0.1:7890"), Some("http://127.0.0.1:7890".to_string()));
    assert_eq!(windows_proxy(0, "127.0.0.1:7890"), None);
    assert_eq!(windows_proxy(1, ""), None);
    assert_eq!(
        windows_proxy(1, "https=127.0.0.1:1;http=127.0.0.1:8080;ftp=x"),
        Some("http://127.0.0.1:8080".to_string())
    );
    assert_eq!(windows_proxy(1, "http=http=x:1"), Some("http://x:1".to_string()));
    assert_eq!(windows_proxy(1, "https=1.2.3.4:1;ftp=x"), Some("http://https=1.2.3.4:1".to_string()));
    assert_eq!(windows_proxy(1, ";http=a:1"), Some("http://a:1".to_string()));
    assert_eq!(windows_proxy(1, "ftp=a;"), Some("http://ftp=a".to_string()));
    assert_eq!(windows_proxy(1, "=;x"), Some("http://=".to_string()));
    assert_eq!(windows_proxy(1, ";="), None);
    assert_eq!(windows_proxy(1, "socks5://h:1"), Some("socks5://h:1".to_string()));
    assert_eq!(windows_proxy(1, "http=socks5://h:1"), Some("socks5://h:1".to_string()));
}

#[test]
fn macos_scutil_proxy() {
    let out = "<dictionary> {\n  ExceptionsList : <array> {\n    0 : *.local\n  }\n  HTTPEnable : 1\n  HTTPPort : 7890\n  HTTPProxy : 127.0.0.1\n}\n";
    assert_eq!(mac_proxy(out), Some("http://127.0.0.1:7890".to_string()));
    assert_eq!(mac_proxy("HTTPEnable : 0\nHTTPProxy : h\nHTTPPort : 1"), None);
    assert_eq!(mac_proxy("HTTPEnable : 1\nHTTPPort : 1"), None);
    assert_eq!(mac_proxy("HTTPEnable : 1\nHTTPProxy\nHTTPPort : 1"), None);
    assert_eq!(mac_proxy("HTTPEnable : 1\nHTTPProxy : h"), Some("http://h:".to_string()));
    assert_eq!(mac_proxy("HTTPEnable : 1\nHTTPProxy : h:8\nHTTPPort : 9"), Some("http://h:9".to_string()));
}

#[test]
fn proxy_choice() {
    assert!(needs_system_proxy(""));
    assert!(!needs_system_proxy("socks5h://127.0.0.1:7890"));
    assert_eq!(
        choose_proxy("socks5h://127.0.0.1:7890".to_string(), Some("http://sys:1".to_string())),
        Some("socks5h://127.0.0.1:7890".to_string())
    );
    assert_eq!(choose_proxy(String::new(), Some("http://sys:1".to_string())), Some("http://sys:1".to_string()));
    assert_eq!(choose_proxy(String::new(), None), None);
    assert!(client_proxy(Some("socks5h://127.0.0.1:7890".to_string())).is_some());
    assert!(client_proxy(Some("http://127.0.0.1:7890".to_string())).is_some());
    assert!(client_proxy(Some(String::new())).is_none());
    assert!(client_proxy(None).is_none());
    assert!(contains_text("a://b", "://"));
    assert!(!contains_text(":/", "://"));
    assert!(contains_text("x", ""));
}
