use singboard::dns::{
    display_dns_value, dns_query_result, parse_dns_server, parse_record_type, prepare_dns_query,
    DnsData, DnsRecord,
};
use singboard::ip::IpAddress;

#[test]
fn record_types_are_case_insensitive_and_trimmed() {
    assert_eq!(parse_record_type("A"), Ok(1));
    assert_eq!(parse_record_type(" aaaa "), Ok(28));
    assert_eq!(parse_record_type("txt"), Ok(16));
    assert_eq!(parse_record_type("Mx"), Ok(15));
    assert_eq!(parse_record_type("*"), Ok(255));
    assert_eq!(parse_record_type("any"), Ok(255));
    assert_eq!(parse_record_type("https"), Ok(65));
}

#[test]
fn record_type_errors() {
    assert_eq!(parse_record_type("   "), Err("DNS record type is empty".to_string()));
    assert_eq!(parse_record_type(""), Err("DNS record type is empty".to_string()));
    assert_eq!(parse_record_type(" foo "), Err("unsupported DNS record type: FOO".to_string()));
    assert_eq!(parse_record_type("opt"), Err("unsupported DNS record type: OPT".to_string()));
}

#[test]
fn dns_server_forms() {
    assert_eq!(parse_dns_server("8.8.8.8"), Ok((IpAddress::V4(8, 8, 8, 8), 53)));
    assert_eq!(parse_dns_server(" 1.1.1.1:5353 "), Ok((IpAddress::V4(1, 1, 1, 1), 5353)));
    assert_eq!(
        parse_dns_server("[::1]:5353"),
        Ok((IpAddress::V6(0, 0, 0, 0, 0, 0, 0, 1), 5353))
    );
    assert_eq!(parse_dns_server("::1"), Ok((IpAddress::V6(0, 0, 0, 0, 0, 0, 0, 1), 53)));
    assert_eq!(parse_dns_server("1.1.1.1:+53"), Ok((IpAddress::V4(1, 1, 1, 1), 53)));
    assert_eq!(parse_dns_server("1.1.1.1:0053"), Ok((IpAddress::V4(1, 1, 1, 1), 53)));
}

#[test]
fn dns_server_errors() {
    assert_eq!(parse_dns_server("  "), Err("DNS server is empty".to_string()));
    assert_eq!(parse_dns_server("example.com"), Err("DNS server must be an IP address".to_string()));
    assert_eq!(parse_dns_server("example.com:53"), Err("DNS server must be an IP address".to_string()));
    assert_eq!(parse_dns_server("[::1]"), Err("DNS server must be an IP address".to_string()));
    assert_eq!(parse_dns_server("1.1.1.1:99999"), Err("DNS server port is invalid".to_string()));
    assert_eq!(parse_dns_server("1.1.1.1:"), Err("DNS server port is invalid".to_string()));
    assert_eq!(parse_dns_server("1.1.1.1:-1"), Err("DNS server port is invalid".to_string()));
}

#[test]
fn query_plan_with_custom_server() {
    let plan = prepare_dns_query(" example.com.. ", "txt", Some(" 1.1.1.1 ".to_string())).unwrap();
    assert_eq!(plan.query_name, "example.com.");
    assert_eq!(plan.record_type, 16);
    assert_eq!(plan.server, Some("1.1.1.1".to_string()));
    assert_eq!(plan.endpoint, Some((IpAddress::V4(1, 1, 1, 1), 53)));
}

#[test]
fn query_plan_with_system_resolver() {
    let plan = prepare_dns_query("example.com", "A", Some("   ".to_string())).unwrap();
    assert_eq!(plan.query_name, "example.com.");
    assert_eq!(plan.record_type, 1);
    assert_eq!(plan.server, None);
    assert_eq!(plan.endpoint, None);
    let plan = prepare_dns_query("example.com", "A", None).unwrap();
    assert_eq!(plan.server, None);
}

#[test]
fn query_plan_errors_in_order() {
    assert_eq!(prepare_dns_query(" ... ", "bad", Some("x".to_string())).err(), Some("domain is empty".to_string()));
    assert_eq!(
        prepare_dns_query("a.com", "bad", Some("x".to_string())).err(),
        Some("unsupported DNS record type: BAD".to_string())
    );
    assert_eq!(
        prepare_dns_query("a.com", "a", Some("x".to_string())).err(),
        Some("DNS server must be an IP address".to_string())
    );
}

#[test]
fn query_result_source() {
    let r = dns_query_result(Some("1.1.1.1".to_string()), vec![]);
    assert_eq!(r.source, "custom");
    assert_eq!(r.server, Some("1.1.1.1".to_string()));
    let rec = DnsRecord {
        record_type: "A".to_string(),
        name: "a.com.".to_string(),
        ttl: 60,
        value: "1.2.3.4".to_string(),
        ip: Some("1.2.3.4".to_string()),
    };
    let r = dns_query_result(None, vec![rec]);
    assert_eq!(r.source, "system");
    assert_eq!(r.records.len(), 1);
    assert_eq!(r.records[0].ttl, 60);
}

#[test]
fn txt_values_are_joined() {
    let d = DnsData::Txt(vec!["v=spf1 ".to_string(), "-all".to_string()]);
    assert_eq!(display_dns_value(&d), "v=spf1 -all");
    assert_eq!(display_dns_value(&DnsData::Txt(vec![])), "");
    assert_eq!(display_dns_value(&DnsData::Other("1.2.3.4".to_string())), "1.2.3.4");
}
