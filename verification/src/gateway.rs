//! The TUN inbound's gateway addresses, and the DNS servers that the helper
//! keeps set on every network service while the core runs.

use vstd::prelude::*;
use crate::json::{get_field, json_get, json_text, parse_json, serde_json_value, JsonValue};
use crate::ip::{ipv4_spec, ipv6_spec, parse_ipv4_range, parse_ipv6_range};
use crate::text::{
    chars_of, opt_text, opt_texts, split_chars, split_on, string_of, texts, trim_bounds, trim_spaces, views,
    Strip,
};

verus! {

/// What `extract_gateway_ip` gives: the text before the first `'/'`,
/// trimmed, when it is an IPv4 (`false`) or IPv6 (`true`) address.
pub open spec fn gateway_ip_spec(cidr: Seq<char>) -> Option<(Seq<char>, bool)> {
    let t = trim_spaces(split_on(cidr, '/')[0]);
    if ipv4_spec(t) is Some {
        Some((t, false))
    } else if ipv6_spec(t) is Some {
        Some((t, true))
    } else {
        None
    }
}

pub open spec fn gateway_view(r: Option<(String, bool)>) -> Option<(Seq<char>, bool)> {
    match r {
        Some((s, b)) => Some((s@, b)),
        None => None,
    }
}

/// The gateway IP of a CIDR text such as `172.19.0.1/30`, with whether it is
/// IPv6.
pub fn extract_gateway_ip(cidr: &str) -> (r: Option<(String, bool)>)
    ensures
        gateway_view(r) == gateway_ip_spec(cidr@),
{
    let v = chars_of(cidr);
    assert(v@.subrange(0, v@.len() as int) =~= v@);
    let pieces = split_chars(&v, 0, v.len(), '/');
    proof {
        crate::text::lemma_split_on_nonempty(cidr@, '/');
    }
    let first = &pieces[0];
    assert(views(pieces@)[0] == first@);
    assert(first@.subrange(0, first@.len() as int) =~= first@);
    let (a, b) = trim_bounds(first, 0, first.len(), Strip::Spaces);
    if parse_ipv4_range(first, a, b).is_some() {
        Some((string_of(first, a, b), false))
    } else if parse_ipv6_range(first, a, b).is_some() {
        Some((string_of(first, a, b), true))
    } else {
        None
    }
}

/// The `address` of an inbound: one string, an array (each element a string
/// or something else), or absent or of another JSON type.
pub enum AddressField {
    Text(String),
    List(Vec<Option<String>>),
    Other,
}

/// What the gateway search reads of one inbound: its `type` when that is a
/// string, and its `address`.
pub struct Inbound {
    pub kind: Option<String>,
    pub address: AddressField,
}

/// What the gateway search reads of a sing-box configuration: its
/// `inbounds` when that is an array.
pub struct TunConfig {
    pub inbounds: Option<Vec<Inbound>>,
}

/// The gateways of the first TUN inbound that has one.
pub struct TunGateways {
    pub ipv4: Option<String>,
    pub ipv6: Option<String>,
}

/// An inbound's `address` in the abstract.
pub enum AddressView {
    Text(Seq<char>),
    List(Seq<Option<Seq<char>>>),
    Other,
}

/// What the gateway search reads of one inbound, in the abstract.
pub struct InboundView {
    pub kind: Option<Seq<char>>,
    pub address: AddressView,
}

pub open spec fn address_view(f: AddressField) -> AddressView {
    match f {
        AddressField::Text(s) => AddressView::Text(s@),
        AddressField::List(items) => AddressView::List(items@.map_values(|x: Option<String>| opt_text(x))),
        AddressField::Other => AddressView::Other,
    }
}

pub open spec fn inbound_view(i: Inbound) -> InboundView {
    InboundView { kind: opt_text(i.kind), address: address_view(i.address) }
}

/// A configuration's inbounds in the abstract (`None`: no `inbounds` array).
pub open spec fn config_view(c: TunConfig) -> Option<Seq<InboundView>> {
    match c.inbounds {
        Some(list) => Some(list@.map_values(|i: Inbound| inbound_view(i))),
        None => None,
    }
}

/// The address texts an inbound offers, `None` for array elements that are
/// not strings.
pub open spec fn address_items(f: AddressView) -> Seq<Option<Seq<char>>> {
    match f {
        AddressView::Text(s) => seq![Some(s)],
        AddressView::List(items) => items,
        AddressView::Other => Seq::empty(),
    }
}

/// The first IPv4 and first IPv6 gateway among the address texts.
pub open spec fn first_gateways(items: Seq<Option<Seq<char>>>) -> (Option<Seq<char>>, Option<Seq<char>>)
    decreases items.len(),
{
    if items.len() == 0 {
        (None, None)
    } else {
        let g = first_gateways(items.drop_last());
        match items.last() {
            Some(a) => match gateway_ip_spec(a) {
                Some((ip, true)) => if g.1 is None {
                    (g.0, Some(ip))
                } else {
                    g
                },
                Some((ip, false)) => if g.0 is None {
                    (Some(ip), g.1)
                } else {
                    g
                },
                None => g,
            },
            None => g,
        }
    }
}

/// The gateway search over the inbounds from index `i` on. An inbound
/// without a string `type` ends the search with nothing. The first `tun`
/// inbound whose address field yields a gateway decides: it gives its IPv4
/// gateway and optional IPv6 one, and nothing at all when it has no IPv4
/// gateway. TUN inbounds that yield no gateway are passed over.
pub open spec fn tun_search(inbounds: Seq<InboundView>, i: int) -> Option<(Option<Seq<char>>, Option<Seq<char>>)>
    decreases inbounds.len() - i,
{
    if i < 0 || i >= inbounds.len() {
        None
    } else {
        let ib = inbounds[i];
        match ib.kind {
            None => None,
            Some(k) => if k != "tun"@ {
                tun_search(inbounds, i + 1)
            } else {
                match ib.address {
                    AddressView::Other => tun_search(inbounds, i + 1),
                    _ => {
                        let g = first_gateways(address_items(ib.address));
                        if g.0 is Some {
                            Some(g)
                        } else if g.1 is Some {
                            None
                        } else {
                            tun_search(inbounds, i + 1)
                        }
                    },
                }
            },
        }
    }
}

/// The gateways that the search finds in a configuration's inbounds.
pub open spec fn tun_gateways_spec(inbounds: Option<Seq<InboundView>>) -> Option<(Option<Seq<char>>, Option<Seq<char>>)> {
    match inbounds {
        None => None,
        Some(list) => tun_search(list, 0),
    }
}

/// Whatever the search finds holds an IPv4 gateway: a TUN inbound whose
/// address yields an IPv6 gateway alone gives no gateways at all.
pub proof fn law_found_gateways_hold_ipv4(inbounds: Seq<InboundView>, i: int)
    ensures
        tun_search(inbounds, i) matches Some(g) ==> g.0 is Some,
    decreases inbounds.len() - i,
{
    if 0 <= i < inbounds.len() {
        law_found_gateways_hold_ipv4(inbounds, i + 1);
    }
}

pub open spec fn gateways_view(g: TunGateways) -> (Option<Seq<char>>, Option<Seq<char>>) {
    (opt_text(g.ipv4), opt_text(g.ipv6))
}

fn is_tun(k: &String) -> (r: bool)
    ensures
        r == (k@ == "tun"@),
{
    crate::text::text_eq(k.as_str(), "tun")
}

fn first_gateways_exec(items: &Vec<Option<String>>) -> (r: TunGateways)
    ensures
        gateways_view(r) == first_gateways(items@.map_values(|x: Option<String>| opt_text(x))),
{
    let ghost all = items@.map_values(|x: Option<String>| opt_text(x));
    let mut g = TunGateways { ipv4: None, ipv6: None };
    let mut i: usize = 0;
    while i < items.len()
        invariant
            i <= items@.len(),
            all == items@.map_values(|x: Option<String>| opt_text(x)),
            gateways_view(g) == first_gateways(all.subrange(0, i as int)),
        decreases items@.len() - i,
    {
        assert(all.subrange(0, i + 1).drop_last() =~= all.subrange(0, i as int));
        assert(all.subrange(0, i + 1).last() == opt_text(items@[i as int]));
        match &items[i] {
            Some(a) => match extract_gateway_ip(a.as_str()) {
                Some((ip, true)) => {
                    if g.ipv6.is_none() {
                        g.ipv6 = Some(ip);
                    }
                },
                Some((ip, false)) => {
                    if g.ipv4.is_none() {
                        g.ipv4 = Some(ip);
                    }
                },
                None => {},
            },
            None => {},
        }
        i = i + 1;
    }
    assert(all.subrange(0, items@.len() as int) =~= all);
    g
}

/// The gateways of the first TUN inbound of a configuration; every result
/// holds an IPv4 gateway.
pub fn parse_tun_gateways(config: &TunConfig) -> (r: Option<TunGateways>)
    ensures
        match tun_gateways_spec(config_view(*config)) {
            Some(g) => r is Some && gateways_view(r->0) == g,
            None => r is None,
        },
        r matches Some(g) ==> g.ipv4 is Some,
{
    let list = match &config.inbounds {
        None => {
            return None;
        },
        Some(l) => l,
    };
    let ghost vs = list@.map_values(|i: Inbound| inbound_view(i));
    let mut i: usize = 0;
    while i < list.len()
        invariant
            i <= list@.len(),
            vs == list@.map_values(|i: Inbound| inbound_view(i)),
            config_view(*config) == Some(vs),
            tun_search(vs, 0) == tun_search(vs, i as int),
        decreases list@.len() - i,
    {
        let ib = &list[i];
        assert(vs[i as int] == inbound_view(*ib));
        match &ib.kind {
            None => {
                return None;
            },
            Some(k) => {
                if is_tun(k) {
                    let g = match &ib.address {
                        AddressField::Other => None,
                        AddressField::Text(s) => {
                            let one = vec![Some(s.clone())];
                            assert(one@.map_values(|x: Option<String>| opt_text(x)) =~= seq![Some(s@)]);
                            Some(first_gateways_exec(&one))
                        },
                        AddressField::List(items) => Some(first_gateways_exec(items)),
                    };
                    match g {
                        Some(g) => {
                            if g.ipv4.is_some() {
                                return Some(g);
                            } else if g.ipv6.is_some() {
                                return None;
                            }
                        },
                        None => {},
                    }
                }
            },
        }
        i = i + 1;
    }
    None
}

/// An inbound's `address` as read from JSON: a string, an array (its
/// strings kept, anything else marked `None`), or anything else.
pub open spec fn address_of_json(a: Option<JsonValue>) -> AddressView {
    match a {
        Some(JsonValue::Str(s)) => AddressView::Text(s@),
        Some(JsonValue::Array(xs)) => AddressView::List(xs@.map_values(|x: JsonValue| json_text(Some(x)))),
        _ => AddressView::Other,
    }
}

/// What the gateway search reads of one inbound object: `type` when it is a
/// string, and `address`.
pub open spec fn inbound_of_json(ib: JsonValue) -> InboundView {
    InboundView {
        kind: json_text(json_get(ib, "type"@)),
        address: address_of_json(json_get(ib, "address"@)),
    }
}

/// What the gateway search reads of a configuration: its `inbounds` when
/// that is an array.
pub open spec fn tun_config_spec(v: JsonValue) -> Option<Seq<InboundView>> {
    match json_get(v, "inbounds"@) {
        Some(JsonValue::Array(items)) => Some(items@.map_values(|ib: JsonValue| inbound_of_json(ib))),
        _ => None,
    }
}

fn texts_of_json(xs: &Vec<JsonValue>) -> (r: Vec<Option<String>>)
    ensures
        r@.map_values(|x: Option<String>| opt_text(x)) == xs@.map_values(|x: JsonValue| json_text(Some(x))),
{
    let mut r: Vec<Option<String>> = Vec::new();
    let mut i: usize = 0;
    while i < xs.len()
        invariant
            i <= xs@.len(),
            r@.map_values(|x: Option<String>| opt_text(x)) == xs@.subrange(0, i as int).map_values(
                |x: JsonValue| json_text(Some(x)),
            ),
        decreases xs@.len() - i,
    {
        let ghost old_r = r@;
        let t = crate::json::as_text(Some(&xs[i]));
        r.push(t);
        assert(r@ == old_r.push(t));
        assert(r@.map_values(|x: Option<String>| opt_text(x)) =~= old_r.map_values(
            |x: Option<String>| opt_text(x),
        ).push(opt_text(t)));
        assert(xs@.subrange(0, i + 1).map_values(|x: JsonValue| json_text(Some(x))) =~= xs@.subrange(
            0,
            i as int,
        ).map_values(|x: JsonValue| json_text(Some(x))).push(json_text(Some(xs@[i as int]))));
        i = i + 1;
    }
    assert(xs@.subrange(0, xs@.len() as int) =~= xs@);
    r
}

fn inbound_of(ib: &JsonValue) -> (r: Inbound)
    ensures
        inbound_view(r) == inbound_of_json(*ib),
{
    let kind = crate::json::as_text(get_field(ib, "type"));
    let address = match get_field(ib, "address") {
        Some(JsonValue::Str(s)) => AddressField::Text(s.clone()),
        Some(JsonValue::Array(xs)) => AddressField::List(texts_of_json(xs)),
        _ => AddressField::Other,
    };
    Inbound { kind, address }
}

/// What the gateway search reads of a sing-box configuration read as JSON.
pub fn tun_config_of(v: &JsonValue) -> (r: TunConfig)
    ensures
        config_view(r) == tun_config_spec(*v),
{
    match get_field(v, "inbounds") {
        Some(JsonValue::Array(items)) => {
            let mut out: Vec<Inbound> = Vec::new();
            let mut i: usize = 0;
            while i < items.len()
                invariant
                    i <= items@.len(),
                    out@.map_values(|x: Inbound| inbound_view(x)) == items@.subrange(0, i as int).map_values(
                        |ib: JsonValue| inbound_of_json(ib),
                    ),
                decreases items@.len() - i,
            {
                let ghost old_out = out@;
                let ib = inbound_of(&items[i]);
                out.push(ib);
                assert(out@.map_values(|x: Inbound| inbound_view(x)) =~= old_out.map_values(
                    |x: Inbound| inbound_view(x),
                ).push(inbound_view(ib)));
                assert(items@.subrange(0, i + 1).map_values(|x: JsonValue| inbound_of_json(x))
                    =~= items@.subrange(0, i as int).map_values(|x: JsonValue| inbound_of_json(x)).push(
                    inbound_of_json(items@[i as int]),
                ));
                i = i + 1;
            }
            assert(items@.subrange(0, items@.len() as int) =~= items@);
            TunConfig { inbounds: Some(out) }
        },
        _ => TunConfig { inbounds: None },
    }
}

/// The gateways of the first TUN inbound of a configuration file's text:
/// nothing when serde_json cannot read it.
pub fn tun_gateways_of_text(content: &str) -> (r: Option<TunGateways>)
    ensures
        match serde_json_value(content@) {
            Err(_) => r is None,
            Ok(v) => match tun_gateways_spec(tun_config_spec(v)) {
                Some(g) => r is Some && gateways_view(r->0) == g,
                None => r is None,
            },
        },
{
    match parse_json(content) {
        Err(_) => None,
        Ok(v) => parse_tun_gateways(&tun_config_of(&v)),
    }
}

/// The DNS servers the helper keeps set; nothing while the core is stopped.
pub struct DnsTargets {
    targets: Option<Vec<String>>,
}

impl DnsTargets {
    pub closed spec fn view(&self) -> Option<Seq<Seq<char>>> {
        opt_texts(self.targets)
    }

    /// No targets: the core is not running.
    pub fn new() -> (r: DnsTargets)
        ensures
            r.view() is None,
    {
        DnsTargets { targets: None }
    }
}

fn clone_texts(v: &Vec<String>) -> (r: Vec<String>)
    ensures
        texts(r@) == texts(v@),
{
    let mut r: Vec<String> = Vec::new();
    let mut i: usize = 0;
    while i < v.len()
        invariant
            i <= v@.len(),
            texts(r@) == texts(v@.subrange(0, i as int)),
        decreases v@.len() - i,
    {
        let ghost old_r = r@;
        let c = v[i].clone();
        r.push(c);
        assert(r@ == old_r.push(c));
        assert(texts(r@) =~= texts(old_r).push(v@[i as int]@));
        assert(texts(v@.subrange(0, i + 1)) =~= texts(v@.subrange(0, i as int)).push(v@[i as int]@));
        i = i + 1;
    }
    assert(v@.subrange(0, v@.len() as int) =~= v@);
    r
}

/// Records the DNS servers to keep set (`None` once the core stops).
pub fn set_dns_targets(state: &mut DnsTargets, ips: Option<Vec<String>>)
    ensures
        final(state).view() == opt_texts(ips),
{
    state.targets = ips;
}

/// The DNS servers currently kept set.
pub fn get_dns_targets(state: &DnsTargets) -> (r: Option<Vec<String>>)
    ensures
        opt_texts(r) == state.view(),
{
    match &state.targets {
        Some(v) => Some(clone_texts(v)),
        None => None,
    }
}

/// The servers to apply again after a network change, given those kept:
/// all of them when the core runs and there are any; nothing otherwise.
pub open spec fn dns_to_reapply(kept: Option<Seq<Seq<char>>>) -> Option<Seq<Seq<char>>> {
    match kept {
        Some(ips) => if ips.len() > 0 {
            Some(ips)
        } else {
            None
        },
        None => None,
    }
}

/// What to do after a network change: the servers to apply again, when the
/// core runs and there are any; nothing otherwise.
pub fn reapply_dns(state: &DnsTargets) -> (r: Option<Vec<String>>)
    ensures
        opt_texts(r) == dns_to_reapply(state.view()),
{
    match get_dns_targets(state) {
        Some(ips) => if ips.len() > 0 {
            Some(ips)
        } else {
            None
        },
        None => None,
    }
}

/// The DNS servers for a TUN inbound: its IPv4 gateway, then its IPv6
/// gateway, each when present.
pub open spec fn gateway_servers(g: TunGateways) -> Seq<Seq<char>> {
    (match g.ipv4 {
        Some(a) => seq![a@],
        None => Seq::empty(),
    }) + (match g.ipv6 {
        Some(b) => seq![b@],
        None => Seq::empty(),
    })
}

/// The DNS servers for a TUN inbound are its IPv4 gateway first, when there
/// is one, and its IPv6 gateway last, when there is one: one server for each
/// gateway present, so an IPv4-only inbound gives exactly its IPv4 gateway.
pub proof fn law_gateway_servers_in_order(g: TunGateways)
    ensures
        gateway_servers(g).len() == (if g.ipv4 is Some { 1int } else { 0int }) + (if g.ipv6 is Some {
            1int
        } else {
            0int
        }),
        g.ipv4 matches Some(a) ==> gateway_servers(g)[0] == a@,
        g.ipv6 matches Some(b) ==> gateway_servers(g)[gateway_servers(g).len() - 1] == b@,
        g.ipv4 is Some && g.ipv6 is None ==> gateway_servers(g) == seq![g.ipv4->0@],
{
}

/// The DNS servers to set for a TUN inbound.
pub fn dns_servers_for(g: &TunGateways) -> (r: Vec<String>)
    ensures
        texts(r@) == gateway_servers(*g),
{
    let mut r: Vec<String> = Vec::new();
    match &g.ipv4 {
        Some(a) => r.push(a.clone()),
        None => {},
    }
    match &g.ipv6 {
        Some(b) => r.push(b.clone()),
        None => {},
    }
    assert(texts(r@) =~= (match g.ipv4 {
        Some(a) => seq![a@],
        None => Seq::<Seq<char>>::empty(),
    }) + (match g.ipv6 {
        Some(b) => seq![b@],
        None => Seq::<Seq<char>>::empty(),
    }));
    r
}


/// What is read back is what was last recorded: `get_dns_targets` after
/// `set_dns_targets` gives the servers set.
pub proof fn law_dns_targets_read_back(after_set: DnsTargets, ips: Option<Vec<String>>, got: Option<Vec<String>>)
    requires
        after_set.view() == opt_texts(ips),
        opt_texts(got) == after_set.view(),
    ensures
        opt_texts(got) == opt_texts(ips),
{
}

/// After a network change the servers recorded at start are applied again,
/// and nothing is applied once a stop has recorded none.
pub proof fn law_reapply_after_set(ips: Option<Vec<String>>)
    ensures
        ips is None ==> dns_to_reapply(opt_texts(ips)) is None,
        ips is Some && ips->0@.len() > 0 ==> dns_to_reapply(opt_texts(ips)) == Some(texts(ips->0@)),
{
}

} // verus!
