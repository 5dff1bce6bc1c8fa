//! Preparation of DNS lookups: record-type names, name-server addresses,
//! query names, and the shape of the answer handed back to the dashboard.

use std::str::FromStr;
use vstd::prelude::*;
use crate::ip::{ip_spec, parse_ip_range, IpAddress};
use crate::text::{
    chars_of, concat_text, opt_text, owned, parse_unsigned, parse_unsigned_range, rfind_char, rfind_in, skip_end,
    text_err,
    string_of, trim_bounds, trim_by, trim_end_by, trim_spaces, upper_ascii, upper_range, Strip,
};

verus! {

/// The numeric code of each record-type name that hickory's
/// `RecordType::from_str` accepts (`"*"` is `ANY`).
pub open spec fn record_type_code(name: Seq<char>) -> Option<u16> {
    if name == "A"@ { Some(1) }
    else if name == "AAAA"@ { Some(28) }
    else if name == "ANAME"@ { Some(65305) }
    else if name == "AXFR"@ { Some(252) }
    else if name == "CAA"@ { Some(257) }
    else if name == "CDNSKEY"@ { Some(60) }
    else if name == "CERT"@ { Some(37) }
    else if name == "CDS"@ { Some(59) }
    else if name == "CNAME"@ { Some(5) }
    else if name == "CSYNC"@ { Some(62) }
    else if name == "DNAME"@ { Some(39) }
    else if name == "DNSKEY"@ { Some(48) }
    else if name == "DS"@ { Some(43) }
    else if name == "HINFO"@ { Some(13) }
    else if name == "HTTPS"@ { Some(65) }
    else if name == "KEY"@ { Some(25) }
    else if name == "MX"@ { Some(15) }
    else if name == "NAPTR"@ { Some(35) }
    else if name == "NSEC"@ { Some(47) }
    else if name == "NSEC3"@ { Some(50) }
    else if name == "NSEC3PARAM"@ { Some(51) }
    else if name == "NS"@ { Some(2) }
    else if name == "NULL"@ { Some(10) }
    else if name == "OPENPGPKEY"@ { Some(61) }
    else if name == "PTR"@ { Some(12) }
    else if name == "RRSIG"@ { Some(46) }
    else if name == "SIG"@ { Some(24) }
    else if name == "SMIMEA"@ { Some(53) }
    else if name == "SOA"@ { Some(6) }
    else if name == "SRV"@ { Some(33) }
    else if name == "SSHFP"@ { Some(44) }
    else if name == "SVCB"@ { Some(64) }
    else if name == "TLSA"@ { Some(52) }
    else if name == "TXT"@ { Some(16) }
    else if name == "TSIG"@ { Some(250) }
    else if name == "ANY"@ || name == "*"@ { Some(255) }
    else { None }
}

/// hickory's `RecordType::from_str`, giving the type's numeric code
/// (`u16::from`). Its source is a fixed match of upper-case names, stated in
/// `record_type_code`; any other text is refused.
#[verifier::external_body]
fn hickory_record_type(name: &str) -> (r: Option<u16>)
    ensures
        r == record_type_code(name@),
{
    match hickory_resolver::proto::rr::RecordType::from_str(name) {
        Ok(t) => Some(u16::from(t)),
        Err(_) => None,
    }
}

/// What `parse_record_type` gives: the trimmed, upper-cased name's code, or
/// an error text.
pub open spec fn record_type_spec(text: Seq<char>) -> Result<u16, Seq<char>> {
    let normalized = upper_ascii(trim_spaces(text));
    if normalized.len() == 0 {
        Err("DNS record type is empty"@)
    } else {
        match record_type_code(normalized) {
            Some(c) => Ok(c),
            None => Err("unsupported DNS record type: "@ + normalized),
        }
    }
}

/// The record type named by `record_type`, case-insensitively and ignoring
/// surrounding white space, as its numeric code.
pub fn parse_record_type(record_type: &str) -> (r: Result<u16, String>)
    ensures
        text_err(r) == record_type_spec(record_type@),
{
    let v = chars_of(record_type);
    assert(v@.subrange(0, v@.len() as int) =~= v@);
    let (a, b) = trim_bounds(&v, 0, v.len(), Strip::Spaces);
    let normalized = upper_range(&v, a, b);
    if normalized.as_str().unicode_len() == 0 {
        return Err(owned("DNS record type is empty"));
    }
    match hickory_record_type(normalized.as_str()) {
        Some(c) => Ok(c),
        None => Err(concat_text("unsupported DNS record type: ", normalized.as_str())),
    }
}

/// What `parse_dns_server` gives for a name-server text: an IP address with
/// port 53, or `host:port` where the host may be wrapped in brackets.
pub open spec fn dns_server_spec(server: Seq<char>) -> Result<(IpAddress, u16), Seq<char>> {
    let t = trim_spaces(server);
    if t.len() == 0 {
        Err("DNS server is empty"@)
    } else if ip_spec(t) is Some {
        Ok((ip_spec(t)->0, 53u16))
    } else {
        match rfind_char(t, ':') {
            Some(k) => {
                let host = trim_by(t.subrange(0, k), Strip::Brackets);
                let port = parse_unsigned(t.subrange(k + 1, t.len() as int), 65535);
                if ip_spec(host) is None {
                    Err("DNS server must be an IP address"@)
                } else if port is None {
                    Err("DNS server port is invalid"@)
                } else {
                    Ok((ip_spec(host)->0, port->0 as u16))
                }
            },
            None => Err("DNS server must be an IP address"@),
        }
    }
}

/// The address and port of a name server given as `ip`, `ip:port` or
/// `[ip]:port`.
pub fn parse_dns_server(server: &str) -> (r: Result<(IpAddress, u16), String>)
    ensures
        text_err(r) == dns_server_spec(server@),
{
    let v = chars_of(server);
    assert(v@.subrange(0, v@.len() as int) =~= v@);
    let (a, b) = trim_bounds(&v, 0, v.len(), Strip::Spaces);
    let ghost t = v@.subrange(a as int, b as int);
    if a == b {
        return Err(owned("DNS server is empty"));
    }
    match parse_ip_range(&v, a, b) {
        Some(ip) => {
            return Ok((ip, 53));
        },
        None => {},
    }
    match rfind_in(&v, a, b, ':') {
        Some(k) => {
            assert(t.subrange(0, k - a) =~= v@.subrange(a as int, k as int));
            assert(t.subrange(k - a + 1, t.len() as int) =~= v@.subrange(k + 1, b as int));
            let (ha, hb) = trim_bounds(&v, a, k, Strip::Brackets);
            let host = parse_ip_range(&v, ha, hb);
            let port = parse_unsigned_range(&v, k + 1, b, 65535);
            match host {
                None => Err(owned("DNS server must be an IP address")),
                Some(ip) => match port {
                    None => Err(owned("DNS server port is invalid")),
                    Some(p) => Ok((ip, p as u16)),
                },
            }
        },
        None => Err(owned("DNS server must be an IP address")),
    }
}


/// One answer record, as the dashboard shows it.
pub struct DnsRecord {
    pub record_type: String,
    pub name: String,
    pub ttl: u32,
    pub value: String,
    pub ip: Option<String>,
}

/// The answer to a DNS query: which resolver was used and what it returned.
pub struct DnsQueryResult {
    pub source: String,
    pub server: Option<String>,
    pub records: Vec<DnsRecord>,
}

/// What a query asks for: the absolute name, the record type's code, the
/// custom server as written (trimmed), and that server's address and port.
pub struct DnsQueryPlan {
    pub query_name: String,
    pub record_type: u16,
    pub server: Option<String>,
    pub endpoint: Option<(IpAddress, u16)>,
}

/// The view of a plan: name, type code, server text, endpoint.
pub open spec fn plan_view(p: DnsQueryPlan) -> (Seq<char>, u16, Option<Seq<char>>, Option<(IpAddress, u16)>) {
    (p.query_name@, p.record_type, opt_text(p.server), p.endpoint)
}

/// The domain with surrounding white space and every trailing dot removed.
pub open spec fn query_domain(domain: Seq<char>) -> Seq<char> {
    trim_end_by(trim_spaces(domain), Strip::Dots)
}

/// The custom server text: trimmed, and absent when that leaves nothing.
pub open spec fn server_text(server: Option<Seq<char>>) -> Option<Seq<char>> {
    match server {
        Some(s) => if trim_spaces(s).len() == 0 {
            None
        } else {
            Some(trim_spaces(s))
        },
        None => None,
    }
}

/// What `prepare_dns_query` gives: the checks in order (domain, record type,
/// server), then the plan.
pub open spec fn dns_plan_spec(domain: Seq<char>, record_type: Seq<char>, server: Option<Seq<char>>)
    -> Result<(Seq<char>, u16, Option<Seq<char>>, Option<(IpAddress, u16)>), Seq<char>> {
    let d = query_domain(domain);
    if d.len() == 0 {
        Err("domain is empty"@)
    } else {
        match record_type_spec(record_type) {
            Err(e) => Err(e),
            Ok(code) => match server_text(server) {
                None => Ok((d + "."@, code, None, None)),
                Some(t) => match dns_server_spec(t) {
                    Err(e) => Err(e),
                    Ok(ep) => Ok((d + "."@, code, Some(t), Some(ep))),
                },
            },
        }
    }
}

/// Checks the inputs of a DNS query and says what to ask and of whom.
pub fn prepare_dns_query(domain: &str, record_type: &str, server: Option<String>) -> (r: Result<
    DnsQueryPlan,
    String,
>)
    ensures
        match dns_plan_spec(domain@, record_type@, opt_text(server)) {
            Ok(p) => r is Ok && plan_view(r->Ok_0) == p,
            Err(e) => r is Err && r->Err_0@ == e,
        },
{
    let v = chars_of(domain);
    assert(v@.subrange(0, v@.len() as int) =~= v@);
    let (a, b) = trim_bounds(&v, 0, v.len(), Strip::Spaces);
    let e = skip_end(&v, a, b, Strip::Dots);
    if a == e {
        return Err(owned("domain is empty"));
    }
    let d = string_of(&v, a, e);
    let code = match parse_record_type(record_type) {
        Ok(c) => c,
        Err(msg) => {
            return Err(msg);
        },
    };
    let query_name = concat_text(d.as_str(), ".");
    let trimmed: Option<String> = match &server {
        Some(s) => {
            let t = crate::text::trim(s.as_str());
            if t.as_str().unicode_len() == 0 {
                None
            } else {
                Some(t)
            }
        },
        None => None,
    };
    match trimmed {
        None => Ok(DnsQueryPlan { query_name, record_type: code, server: None, endpoint: None }),
        Some(t) => match parse_dns_server(t.as_str()) {
            Err(msg) => Err(msg),
            Ok(ep) => Ok(DnsQueryPlan { query_name, record_type: code, server: Some(t), endpoint: Some(ep) }),
        },
    }
}

/// The answer handed back: `"custom"` when a server was given, else `"system"`.
pub fn dns_query_result(server: Option<String>, records: Vec<DnsRecord>) -> (r: DnsQueryResult)
    ensures
        r.source@ == (if server is Some { "custom"@ } else { "system"@ }),
        r.server == server,
        r.records == records,
{
    let source = if server.is_some() {
        owned("custom")
    } else {
        owned("system")
    };
    DnsQueryResult { source, server, records }
}

/// The data of an answer record: the character strings of a TXT record (each
/// already decoded), or the text form of any other record data.
pub enum DnsData {
    Txt(Vec<String>),
    Other(String),
}

/// The texts of a sequence of strings, one after another.
pub open spec fn joined(parts: Seq<String>) -> Seq<char>
    decreases parts.len(),
{
    if parts.len() == 0 {
        Seq::empty()
    } else {
        joined(parts.drop_last()) + parts.last()@
    }
}

/// The value shown for a record: a TXT record's strings run together, else
/// the data's text.
pub fn display_dns_value(data: &DnsData) -> (r: String)
    ensures
        r@ == match data {
            DnsData::Txt(parts) => joined(parts@),
            DnsData::Other(text) => text@,
        },
{
    match data {
        DnsData::Txt(parts) => {
            let mut r = String::new();
            let mut i: usize = 0;
            while i < parts.len()
                invariant
                    i <= parts@.len(),
                    r@ == joined(parts@.subrange(0, i as int)),
                decreases parts@.len() - i,
            {
                r.append(parts[i].as_str());
                i = i + 1;
                assert(parts@.subrange(0, i as int).drop_last() =~= parts@.subrange(0, i - 1));
            }
            assert(parts@.subrange(0, parts@.len() as int) =~= parts@);
            r
        },
        DnsData::Other(text) => text.clone(),
    }
}

} // verus!
