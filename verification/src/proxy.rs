//! Which proxy the dashboard's own HTTP requests go through: its own proxy
//! when one is set, else the system's (the Windows registry settings, or
//! `scutil --proxy` on macOS).

use vstd::prelude::*;
use crate::text::{
    opt_text,
    chars_of, concat_text, lines_chars, lines_of, owned, range_ends_with, range_eq, range_starts_with,
    split_chars, split_on, string_of, trim_bounds, trim_spaces, views, Strip,
};

verus! {

/// Whether `c` occurs in `s`.
pub open spec fn has_char(s: Seq<char>, c: char) -> bool {
    exists|i: int| 0 <= i < s.len() && s[i] == c
}

/// Whether `p` occurs in `s` at `i`.
pub open spec fn occurs_at(s: Seq<char>, p: Seq<char>, i: int) -> bool {
    0 <= i && i + p.len() <= s.len() && s.subrange(i, i + p.len()) == p
}

/// Whether `p` occurs in `s`.
pub open spec fn has_text(s: Seq<char>, p: Seq<char>) -> bool {
    exists|i: int| occurs_at(s, p, i)
}

/// `s` with every leading repetition of a non-empty `p` removed
/// (`trim_start_matches`).
pub open spec fn strip_all_prefix(s: Seq<char>, p: Seq<char>) -> Seq<char>
    decreases s.len(),
{
    if p.len() > 0 && p.is_prefix_of(s) {
        strip_all_prefix(s.subrange(p.len() as int, s.len() as int), p)
    } else {
        s
    }
}

/// The first piece that starts with `p`, from index `i` on.
pub open spec fn first_with_prefix(pieces: Seq<Seq<char>>, p: Seq<char>, i: int) -> Option<Seq<char>>
    decreases pieces.len() - i,
{
    if i < 0 || i >= pieces.len() {
        None
    } else if p.is_prefix_of(pieces[i]) {
        Some(pieces[i])
    } else {
        first_with_prefix(pieces, p, i + 1)
    }
}

/// The proxy address named by the `ProxyServer` registry value: the `http=`
/// entry of a per-protocol list (else its first entry), or the value itself.
pub open spec fn proxy_server_addr(server: Seq<char>) -> Seq<char> {
    if has_char(server, '=') {
        let pieces = split_on(server, ';');
        match first_with_prefix(pieces, "http="@, 0) {
            Some(e) => strip_all_prefix(e, "http="@),
            None => pieces[0],
        }
    } else {
        server
    }
}

/// A proxy address as a URL: `http://` is put in front when it has no scheme.
pub open spec fn as_proxy_url(addr: Seq<char>) -> Seq<char> {
    if has_text(addr, "://"@) {
        addr
    } else {
        "http://"@ + addr
    }
}

/// What the Windows proxy settings give: nothing when disabled or empty.
pub open spec fn windows_proxy_spec(enabled: u32, server: Seq<char>) -> Option<Seq<char>> {
    if enabled == 0 || server.len() == 0 {
        None
    } else {
        let addr = proxy_server_addr(server);
        if addr.len() == 0 {
            None
        } else {
            Some(as_proxy_url(addr))
        }
    }
}

fn has_char_exec(v: &Vec<char>, c: char) -> (r: bool)
    ensures
        r == has_char(v@, c),
{
    let mut i: usize = 0;
    while i < v.len()
        invariant
            i <= v@.len(),
            forall|j: int| 0 <= j < i ==> v@[j] != c,
        decreases v@.len() - i,
    {
        if v[i] == c {
            return true;
        }
        i = i + 1;
    }
    false
}

/// Whether `p` occurs in `s`.
pub fn contains_text(s: &str, p: &str) -> (r: bool)
    ensures
        r == has_text(s@, p@),
{
    let v = chars_of(s);
    let w = chars_of(p);
    if w.len() > v.len() {
        assert forall|i: int| !occurs_at(s@, p@, i) by {}
        return false;
    }
    let last = v.len() - w.len();
    let mut i: usize = 0;
    loop
        invariant
            v@ == s@,
            w@ == p@,
            w@.len() <= v@.len(),
            last == v@.len() - w@.len(),
            i <= last,
            forall|j: int| 0 <= j < i ==> !occurs_at(s@, p@, j),
        decreases last - i,
    {
        let end = v.len() - (last - i);
        if range_eq(&v, i, end, &w) {
            assert(occurs_at(s@, p@, i as int));
            return true;
        }
        if i == last {
            assert forall|j: int| !occurs_at(s@, p@, j) by {
                if 0 <= j && j + p@.len() <= s@.len() {
                    assert(j <= i);
                }
            }
            return false;
        }
        i = i + 1;
    }
}

fn strip_all_prefix_exec(v: &Vec<char>, from: usize, to: usize, p: &Vec<char>) -> (r: usize)
    requires
        from <= to <= v@.len(),
        p@.len() > 0,
    ensures
        from <= r <= to,
        strip_all_prefix(v@.subrange(from as int, to as int), p@) == v@.subrange(r as int, to as int),
{
    let mut i = from;
    while range_starts_with(v, i, to, p)
        invariant
            from <= i <= to <= v@.len(),
            p@.len() > 0,
            strip_all_prefix(v@.subrange(from as int, to as int), p@) == strip_all_prefix(
                v@.subrange(i as int, to as int),
                p@,
            ),
        decreases to - i,
    {
        assert(v@.subrange(i as int, to as int).subrange(p@.len() as int, (to - i) as int)
            =~= v@.subrange(i + p@.len(), to as int));
        i = i + p.len();
    }
    i
}

fn find_prefixed(pieces: &Vec<Vec<char>>, pre: &Vec<char>) -> (r: Option<usize>)
    ensures
        match first_with_prefix(views(pieces@), pre@, 0) {
            Some(e) => r is Some && r->0 < pieces@.len() && views(pieces@)[r->0 as int] == e,
            None => r is None,
        },
{
    let mut k: usize = 0;
    while k < pieces.len()
        invariant
            k <= pieces@.len(),
            first_with_prefix(views(pieces@), pre@, 0) == first_with_prefix(
                views(pieces@),
                pre@,
                k as int,
            ),
        decreases pieces@.len() - k,
    {
        let pc = &pieces[k];
        assert(views(pieces@)[k as int] == pc@);
        assert(pc@.subrange(0, pc@.len() as int) =~= pc@);
        if range_starts_with(pc, 0, pc.len(), pre) {
            return Some(k);
        }
        k = k + 1;
    }
    None
}

/// The proxy URL from the Windows settings `ProxyEnable` and `ProxyServer`.
pub fn windows_proxy(enabled: u32, server: &str) -> (r: Option<String>)
    ensures
        opt_text(r) == windows_proxy_spec(enabled, server@),
{
    let v = chars_of(server);
    if enabled == 0 || v.len() == 0 {
        return None;
    }
    let addr: String = if has_char_exec(&v, '=') {
        assert(v@.subrange(0, v@.len() as int) =~= v@);
        let pieces = split_chars(&v, 0, v.len(), ';');
        proof {
            crate::text::lemma_split_on_nonempty(server@, ';');
        }
        let pre = chars_of("http=");
        let found = find_prefixed(&pieces, &pre);
        match found {
            Some(k) => {
                let pc = &pieces[k];
                assert(views(pieces@)[k as int] == pc@);
                assert(pc@.subrange(0, pc@.len() as int) =~= pc@);
                proof {
                    reveal_strlit("http=");
                }
                let start = strip_all_prefix_exec(pc, 0, pc.len(), &pre);
                string_of(pc, start, pc.len())
            },
            None => {
                let first = &pieces[0];
                assert(views(pieces@)[0] == first@);
                string_of(first, 0, first.len())
            },
        }
    } else {
        owned(server)
    };
    assert(addr@ == proxy_server_addr(server@)) by {
        assert(v@ == server@);
    }
    if addr.as_str().unicode_len() == 0 {
        return None;
    }
    if contains_text(addr.as_str(), "://") {
        Some(addr)
    } else {
        Some(concat_text("http://", addr.as_str()))
    }
}


/// The trimmed text after the first `c` (and before any second one).
pub open spec fn second_field(t: Seq<char>, c: char) -> Option<Seq<char>> {
    let p = split_on(t, c);
    if p.len() > 1 {
        Some(trim_spaces(p[1]))
    } else {
        None
    }
}

/// What the `scutil --proxy` lines say: whether the HTTP proxy is enabled,
/// its host and its port; nothing once a host or port line lacks a `':'`.
pub open spec fn scutil_state(lines: Seq<Seq<char>>) -> Option<(bool, Seq<char>, Seq<char>)>
    decreases lines.len(),
{
    if lines.len() == 0 {
        Some((false, Seq::empty(), Seq::empty()))
    } else {
        match scutil_state(lines.drop_last()) {
            None => None,
            Some((e, h, p)) => {
                let t = trim_spaces(lines.last());
                if "HTTPEnable"@.is_prefix_of(t) {
                    Some((": 1"@.is_suffix_of(t), h, p))
                } else if "HTTPProxy"@.is_prefix_of(t) {
                    match second_field(t, ':') {
                        Some(x) => Some((e, x, p)),
                        None => None,
                    }
                } else if "HTTPPort"@.is_prefix_of(t) {
                    match second_field(t, ':') {
                        Some(x) => Some((e, h, x)),
                        None => None,
                    }
                } else {
                    Some((e, h, p))
                }
            },
        }
    }
}

/// The macOS HTTP proxy from `scutil --proxy` output: `http://host:port`
/// when enabled with a host.
pub open spec fn mac_proxy_spec(output: Seq<char>) -> Option<Seq<char>> {
    match scutil_state(lines_of(output)) {
        Some((e, h, p)) => if e && h.len() > 0 {
            Some("http://"@ + h + ":"@ + p)
        } else {
            None
        },
        None => None,
    }
}

fn second_field_exec(t: &Vec<char>, c: char) -> (r: Option<String>)
    ensures
        opt_text(r) == second_field(t@, c),
{
    assert(t@.subrange(0, t@.len() as int) =~= t@);
    let p = split_chars(t, 0, t.len(), c);
    if p.len() <= 1 {
        return None;
    }
    let f = &p[1];
    assert(views(p@)[1] == f@);
    assert(f@.subrange(0, f@.len() as int) =~= f@);
    let (a, b) = trim_bounds(f, 0, f.len(), Strip::Spaces);
    Some(string_of(f, a, b))
}

/// The macOS HTTP proxy from `scutil --proxy` output.
pub fn mac_proxy(output: &str) -> (r: Option<String>)
    ensures
        opt_text(r) == mac_proxy_spec(output@),
{
    let ls = lines_chars(output);
    let enable = chars_of("HTTPEnable");
    let proxy = chars_of("HTTPProxy");
    let port_key = chars_of("HTTPPort");
    let one = chars_of(": 1");
    let mut enabled = false;
    let mut host = String::new();
    let mut port = String::new();
    let mut i: usize = 0;
    assert(views(ls@).subrange(0, 0) =~= Seq::<Seq<char>>::empty());
    while i < ls.len()
        invariant
            i <= ls@.len(),
            views(ls@) == lines_of(output@),
            enable@ == "HTTPEnable"@,
            proxy@ == "HTTPProxy"@,
            port_key@ == "HTTPPort"@,
            one@ == ": 1"@,
            scutil_state(views(ls@).subrange(0, i as int)) == Some((enabled, host@, port@)),
        decreases ls@.len() - i,
    {
        let line = &ls[i];
        assert(views(ls@)[i as int] == line@);
        assert(views(ls@).subrange(0, i + 1).drop_last() =~= views(ls@).subrange(0, i as int));
        assert(line@.subrange(0, line@.len() as int) =~= line@);
        let (a, b) = trim_bounds(line, 0, line.len(), Strip::Spaces);
        let t = string_of(line, a, b);
        let tv = chars_of(t.as_str());
        assert(tv@.subrange(0, tv@.len() as int) =~= tv@);
        if range_starts_with(&tv, 0, tv.len(), &enable) {
            enabled = range_ends_with(&tv, 0, tv.len(), &one);
        } else if range_starts_with(&tv, 0, tv.len(), &proxy) {
            match second_field_exec(&tv, ':') {
                Some(x) => {
                    host = x;
                },
                None => {
                    assert(scutil_state(views(ls@).subrange(0, i + 1)) is None);
                    assert(views(ls@).subrange(0, ls@.len() as int) =~= views(ls@));
                    proof {
                        lemma_scutil_abort(views(ls@), i + 1);
                    }
                    return None;
                },
            }
        } else if range_starts_with(&tv, 0, tv.len(), &port_key) {
            match second_field_exec(&tv, ':') {
                Some(x) => {
                    port = x;
                },
                None => {
                    assert(scutil_state(views(ls@).subrange(0, i + 1)) is None);
                    assert(views(ls@).subrange(0, ls@.len() as int) =~= views(ls@));
                    proof {
                        lemma_scutil_abort(views(ls@), i + 1);
                    }
                    return None;
                },
            }
        }
        i = i + 1;
    }
    assert(views(ls@).subrange(0, ls@.len() as int) =~= views(ls@));
    if enabled && host.as_str().unicode_len() > 0 {
        let mut r = concat_text("http://", host.as_str());
        r.append(":");
        r.append(port.as_str());
        Some(r)
    } else {
        None
    }
}

/// Once the lines up to `k` end the reading, all the lines do.
proof fn lemma_scutil_abort(lines: Seq<Seq<char>>, k: int)
    requires
        0 <= k <= lines.len(),
        scutil_state(lines.subrange(0, k)) is None,
    ensures
        scutil_state(lines) is None,
    decreases lines.len() - k,
{
    if k < lines.len() {
        assert(lines.subrange(0, k + 1).drop_last() =~= lines.subrange(0, k));
        lemma_scutil_abort(lines, k + 1);
    } else {
        assert(lines.subrange(0, k) =~= lines);
    }
}

/// Whether the system proxy is needed: only when no proxy of the dashboard's
/// own is set.
pub fn needs_system_proxy(self_proxy: &str) -> (r: bool)
    ensures
        r == (self_proxy@.len() == 0),
{
    self_proxy.unicode_len() == 0
}

/// The proxy to use: the dashboard's own when set, else the system's.
pub fn choose_proxy(self_proxy: String, system_proxy: Option<String>) -> (r: Option<String>)
    ensures
        self_proxy@.len() > 0 ==> r == Some(self_proxy),
        self_proxy@.len() == 0 ==> r == system_proxy,
{
    if self_proxy.as_str().unicode_len() > 0 {
        Some(self_proxy)
    } else {
        system_proxy
    }
}

/// `reqwest::Proxy`, handed to the HTTP client as it is.
#[verifier::external_type_specification]
#[verifier::external_body]
pub struct ExProxy(reqwest::Proxy);

/// Whether `reqwest::Proxy::all` accepts a proxy URL (it parses the URL,
/// retrying with `http://` in front when no scheme is given).
pub uninterp spec fn reqwest_accepts_proxy(url: Seq<char>) -> bool;

/// `reqwest::Proxy::all`: a proxy for all traffic, or nothing when the URL is
/// refused. Whether it is refused is named, not stated; the proxy value
/// itself is opaque.
#[verifier::external_body]
fn proxy_all(url: &str) -> (r: Option<reqwest::Proxy>)
    ensures
        r is Some == reqwest_accepts_proxy(url@),
{
    match reqwest::Proxy::all(url) {
        Ok(p) => Some(p),
        Err(_) => None,
    }
}

/// The proxy for the HTTP client: the chosen URL when reqwest accepts it;
/// none (no proxy at all) otherwise.
pub fn client_proxy(url: Option<String>) -> (r: Option<reqwest::Proxy>)
    ensures
        r is Some <==> (url matches Some(u) && reqwest_accepts_proxy(u@)),
{
    match url {
        Some(u) => proxy_all(u.as_str()),
        None => None,
    }
}

} // verus!
