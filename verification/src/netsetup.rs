//! `networksetup` on macOS: which network services there are, and the
//! argument lists that set or clear their DNS servers and proxies.

use vstd::prelude::*;
use crate::text::{lines_chars, lines_of, owned, string_of, texts, trim_spaces, views};

verus! {

/// Whether a line of `networksetup -listallnetworkservices` names a service:
/// it holds more than white space and is not marked disabled with `'*'`.
pub open spec fn names_service(line: Seq<char>) -> bool {
    trim_spaces(line).len() > 0 && !(line.len() > 0 && line[0] == '*')
}

/// The services listed, in order: every line after the first that names one.
pub open spec fn services_in(lines: Seq<Seq<char>>) -> Seq<Seq<char>>
    decreases lines.len(),
{
    if lines.len() <= 1 {
        Seq::empty()
    } else if names_service(lines.last()) {
        services_in(lines.drop_last()).push(lines.last())
    } else {
        services_in(lines.drop_last())
    }
}

/// The network services in the output of `networksetup -listallnetworkservices`.
pub fn parse_network_services(output: &str) -> (r: Vec<String>)
    ensures
        texts(r@) == services_in(lines_of(output@)),
{
    let ls = lines_chars(output);
    let mut r: Vec<String> = Vec::new();
    if ls.len() == 0 {
        return r;
    }
    let mut i: usize = 1;
    assert(views(ls@).subrange(0, 1).len() == 1);
    while i < ls.len()
        invariant
            1 <= i <= ls@.len(),
            views(ls@) == lines_of(output@),
            texts(r@) == services_in(views(ls@).subrange(0, i as int)),
        decreases ls@.len() - i,
    {
        let line = &ls[i];
        assert(views(ls@)[i as int] == line@);
        assert(views(ls@).subrange(0, i + 1).drop_last() =~= views(ls@).subrange(0, i as int));
        assert(line@.subrange(0, line@.len() as int) =~= line@);
        let (a, b) = crate::text::trim_bounds(line, 0, line.len(), crate::text::Strip::Spaces);
        let starred = line.len() > 0 && line[0] == '*';
        if a < b && !starred {
            let ghost old_r = r@;
            let s = string_of(line, 0, line.len());
            r.push(s);
            assert(texts(r@) =~= texts(old_r).push(line@));
        }
        i = i + 1;
    }
    assert(views(ls@).subrange(0, ls@.len() as int) =~= views(ls@));
    r
}

fn copy_text(s: &String) -> (r: String)
    ensures
        r@ == s@,
{
    s.clone()
}

/// `networksetup` arguments that set a service's DNS servers.
pub fn set_dns_args(service: &String, ips: &Vec<String>) -> (r: Vec<String>)
    ensures
        texts(r@) == seq!["-setdnsservers"@, service@] + texts(ips@),
{
    let mut r: Vec<String> = Vec::new();
    r.push(owned("-setdnsservers"));
    r.push(copy_text(service));
    let mut i: usize = 0;
    while i < ips.len()
        invariant
            i <= ips@.len(),
            texts(r@) == seq!["-setdnsservers"@, service@] + texts(ips@.subrange(0, i as int)),
        decreases ips@.len() - i,
    {
        let ghost old_r = r@;
        r.push(copy_text(&ips[i]));
        assert(texts(r@) =~= texts(old_r).push(ips@[i as int]@));
        i = i + 1;
        assert(texts(ips@.subrange(0, i as int)) =~= texts(ips@.subrange(0, i - 1)).push(
            ips@[i - 1]@,
        ));
    }
    assert(ips@.subrange(0, ips@.len() as int) =~= ips@);
    r
}

/// `networksetup` arguments that return a service to automatic DNS.
pub fn clear_dns_args(service: &String) -> (r: Vec<String>)
    ensures
        texts(r@) == seq!["-setdnsservers"@, service@, "Empty"@],
{
    let r = vec![owned("-setdnsservers"), copy_text(service), owned("Empty")];
    assert(texts(r@) =~= seq!["-setdnsservers"@, service@, "Empty"@]);
    r
}

/// `networksetup` argument lists that turn off a service's web, secure web
/// and SOCKS proxies.
pub fn clear_proxy_args(service: &String) -> (r: Vec<Vec<String>>)
    ensures
        r@.len() == 3,
        texts(r@[0]@) == seq!["-setwebproxystate"@, service@, "off"@],
        texts(r@[1]@) == seq!["-setsecurewebproxystate"@, service@, "off"@],
        texts(r@[2]@) == seq!["-setsocksfirewallproxystate"@, service@, "off"@],
{
    let a = vec![owned("-setwebproxystate"), copy_text(service), owned("off")];
    let b = vec![owned("-setsecurewebproxystate"), copy_text(service), owned("off")];
    let c = vec![owned("-setsocksfirewallproxystate"), copy_text(service), owned("off")];
    assert(texts(a@) =~= seq!["-setwebproxystate"@, service@, "off"@]);
    assert(texts(b@) =~= seq!["-setsecurewebproxystate"@, service@, "off"@]);
    assert(texts(c@) =~= seq!["-setsocksfirewallproxystate"@, service@, "off"@]);
    vec![a, b, c]
}

} // verus!
