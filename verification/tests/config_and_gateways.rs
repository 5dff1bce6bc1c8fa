use singboard::config_file::{backup_path, check_config_json, check_outcome, command_text, plan_config_write};
use singboard::gateway::{
    dns_servers_for, extract_gateway_ip, get_dns_targets, parse_tun_gateways, reapply_dns,
    set_dns_targets, tun_config_of, tun_gateways_of_text, AddressField, DnsTargets, Inbound, TunConfig,
    TunGateways,
};
use singboard::json::JsonValue;

#[test]
fn config_backup_and_json_check() {
    assert_eq!(backup_path("/etc/sb/config.json"), "/etc/sb/config.json.bak");
    assert_eq!(check_config_json("{\"log\": {}}"), Ok(()));
    assert_eq!(check_config_json("  [1, 2]\n"), Ok(()));
    let e = check_config_json("{\"log\": ").unwrap_err();
    assert!(e.starts_with("Invalid JSON: "), "{e}");
    assert!(e.len() > "Invalid JSON: ".len());
    assert!(e.contains("line 1"), "{e}");
    let p = plan_config_write("/c.json", "{", true);
    assert_eq!(p.backup, Some(("/c.json".to_string(), "/c.json.bak".to_string())));
    assert!(p.write.is_err());
    let p = plan_config_write("/c.json", "{}", false);
    assert_eq!(p.backup, None);
    assert_eq!(p.write, Ok(()));
}

#[test]
fn check_and_command_output() {
    assert_eq!(check_outcome(true, "x", "y"), Ok("Configuration is valid".to_string()));
    assert_eq!(check_outcome(false, "", "FATAL bad\n"), Err("FATAL bad".to_string()));
    assert_eq!(check_outcome(false, "out", "err"), Err("out\nerr".to_string()));
    assert_eq!(command_text("a\n", "b \n"), "a\nb");
}

#[test]
fn gateway_of_cidr() {
    assert_eq!(extract_gateway_ip("172.19.0.1/30"), Some(("172.19.0.1".to_string(), false)));
    assert_eq!(extract_gateway_ip("fdfe:dcba:9876::1/126"), Some(("fdfe:dcba:9876::1".to_string(), true)));
    assert_eq!(extract_gateway_ip(" 10.0.0.1 /24"), Some(("10.0.0.1".to_string(), false)));
    assert_eq!(extract_gateway_ip("10.0.0.1"), Some(("10.0.0.1".to_string(), false)));
    assert_eq!(extract_gateway_ip("bad/1"), None);
    assert_eq!(extract_gateway_ip("/24"), None);
}

fn inbound(kind: Option<&str>, address: AddressField) -> Inbound {
    Inbound { kind: kind.map(String::from), address }
}

fn list(items: &[Option<&str>]) -> AddressField {
    AddressField::List(items.iter().map(|x| x.map(String::from)).collect())
}

#[test]
fn tun_gateways_of_config() {
    let cfg = TunConfig {
        inbounds: Some(vec![
            inbound(Some("mixed"), AddressField::Other),
            inbound(Some("tun"), list(&[Some("bad"), None, Some("172.19.0.1/30"), Some("172.20.0.1/30"), Some("fdfe::1/126")])),
        ]),
    };
    let g = parse_tun_gateways(&cfg).unwrap();
    assert_eq!(g.ipv4, Some("172.19.0.1".to_string()));
    assert_eq!(g.ipv6, Some("fdfe::1".to_string()));
    assert_eq!(dns_servers_for(&g), vec!["172.19.0.1".to_string(), "fdfe::1".to_string()]);
}

#[test]
fn tun_gateway_search_rules() {
    let cfg = TunConfig { inbounds: Some(vec![inbound(None, AddressField::Other), inbound(Some("tun"), AddressField::Text("1.1.1.1/32".to_string()))]) };
    assert!(parse_tun_gateways(&cfg).is_none());
    let cfg = TunConfig {
        inbounds: Some(vec![
            inbound(Some("tun"), AddressField::Other),
            inbound(Some("tun"), AddressField::Text("bad".to_string())),
            inbound(Some("tun"), AddressField::Text("fdfe::1/126".to_string())),
            inbound(None, AddressField::Other),
        ]),
    };
    assert!(parse_tun_gateways(&cfg).is_none());
    let cfg = TunConfig {
        inbounds: Some(vec![
            inbound(Some("tun"), list(&[Some("fdfe::1/126")])),
            inbound(Some("tun"), AddressField::Text("172.19.0.1/30".to_string())),
        ]),
    };
    assert!(parse_tun_gateways(&cfg).is_none());
    let cfg = TunConfig {
        inbounds: Some(vec![inbound(Some("tun"), list(&[Some("fdfe::1/126"), Some("172.19.0.1/30")]))]),
    };
    let g = parse_tun_gateways(&cfg).unwrap();
    assert_eq!(g.ipv4, Some("172.19.0.1".to_string()));
    assert_eq!(g.ipv6, Some("fdfe::1".to_string()));
    assert!(parse_tun_gateways(&TunConfig { inbounds: None }).is_none());
    assert!(parse_tun_gateways(&TunConfig { inbounds: Some(vec![]) }).is_none());
    let only_v6 = TunGateways { ipv4: None, ipv6: Some("::1".to_string()) };
    assert_eq!(dns_servers_for(&only_v6), vec!["::1".to_string()]);
}

#[test]
fn dns_targets_kept_between_network_changes() {
    let mut t = DnsTargets::new();
    assert_eq!(get_dns_targets(&t), None);
    assert_eq!(reapply_dns(&t), None);
    set_dns_targets(&mut t, Some(vec!["172.19.0.1".to_string()]));
    assert_eq!(get_dns_targets(&t), Some(vec!["172.19.0.1".to_string()]));
    assert_eq!(reapply_dns(&t), Some(vec!["172.19.0.1".to_string()]));
    set_dns_targets(&mut t, Some(vec![]));
    assert_eq!(reapply_dns(&t), None);
    set_dns_targets(&mut t, None);
    assert_eq!(get_dns_targets(&t), None);
    assert_eq!(reapply_dns(&t), None);
}

#[test]
fn tun_gateways_read_from_configuration_text() {
    let text = r#"{"log": {"level": "info"}, "inbounds": [
        {"type": "mixed", "listen": "127.0.0.1"},
        {"type": "tun", "address": ["172.19.0.1/30", 7, "fdfe:dcba:9876::1/126"]}
    ]}"#;
    let g = tun_gateways_of_text(text).unwrap();
    assert_eq!(g.ipv4, Some("172.19.0.1".to_string()));
    assert_eq!(g.ipv6, Some("fdfe:dcba:9876::1".to_string()));
    let g = tun_gateways_of_text(r#"{"inbounds": [{"type": "tun", "address": "10.9.0.1/24"}]}"#).unwrap();
    assert_eq!(g.ipv4, Some("10.9.0.1".to_string()));
    assert_eq!(g.ipv6, None);
    assert!(tun_gateways_of_text(r#"{"inbounds": [{"type": "tun", "address": ["fdfe:dcba:9876::1/126"]}]}"#).is_none());
    assert!(tun_gateways_of_text(r#"{"inbounds": [{"type": 3}, {"type": "tun", "address": "10.9.0.1/24"}]}"#).is_none());
    assert!(tun_gateways_of_text(r#"{"inbounds": {"type": "tun"}}"#).is_none());
    assert!(tun_gateways_of_text(r#"[{"type": "tun", "address": "10.9.0.1/24"}]"#).is_none());
    assert!(tun_gateways_of_text("{\"inbounds\": [").is_none());
}

#[test]
fn tun_config_read_from_a_json_value() {
    let s = |t: &str| JsonValue::Str(t.to_string());
    let v = JsonValue::Object(vec![(
        "inbounds".to_string(),
        JsonValue::Array(vec![
            JsonValue::Object(vec![("address".to_string(), s("1.1.1.1/32")), ("type".to_string(), s("tun"))]),
            JsonValue::Object(vec![
                ("address".to_string(), JsonValue::Array(vec![s("a"), JsonValue::Null])),
                ("type".to_string(), JsonValue::Bool(true)),
            ]),
            JsonValue::Number("5".to_string()),
        ]),
    )]);
    let c = tun_config_of(&v);
    let list = c.inbounds.as_ref().unwrap();
    assert_eq!(list.len(), 3);
    assert_eq!(list[0].kind, Some("tun".to_string()));
    assert!(matches!(&list[0].address, AddressField::Text(t) if t == "1.1.1.1/32"));
    assert_eq!(list[1].kind, None);
    assert!(matches!(&list[1].address, AddressField::List(xs) if xs == &vec![Some("a".to_string()), None]));
    assert_eq!(list[2].kind, None);
    assert!(matches!(list[2].address, AddressField::Other));
    assert_eq!(parse_tun_gateways(&c).unwrap().ipv4, Some("1.1.1.1".to_string()));
    assert!(tun_config_of(&JsonValue::Array(vec![])).inbounds.is_none());
}
