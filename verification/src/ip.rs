//! Textual IPv4 and IPv6 addresses, in the grammar that the standard
//! library's `FromStr` for `Ipv4Addr`, `Ipv6Addr` and `IpAddr` accepts.

use vstd::prelude::*;
use crate::text::{all_dec, chars_of, dec_digit, join_on, lemma_join_split, lemma_split_append, lemma_split_without_sep, dec_value, is_dec_digit, split_chars, split_on, views};

verus! {

/// An IP address: four octets, or eight 16-bit groups.
#[derive(Clone, Copy, Debug, PartialEq, Eq, Structural)]
pub enum IpAddress {
    V4(u8, u8, u8, u8),
    V6(u16, u16, u16, u16, u16, u16, u16, u16),
}

pub open spec fn is_hex_digit(c: char) -> bool {
    ||| ('0' <= c && c <= '9')
    ||| ('a' <= c && c <= 'f')
    ||| ('A' <= c && c <= 'F')
}

pub open spec fn hex_digit(c: char) -> nat {
    if '0' <= c && c <= '9' {
        (c as u32 - '0' as u32) as nat
    } else if 'a' <= c && c <= 'f' {
        (c as u32 - 'a' as u32 + 10) as nat
    } else {
        (c as u32 - 'A' as u32 + 10) as nat
    }
}

pub open spec fn all_hex(s: Seq<char>) -> bool {
    forall|i: int| 0 <= i < s.len() ==> is_hex_digit(#[trigger] s[i])
}

/// The value of a string of hexadecimal digits.
pub open spec fn hex_value(s: Seq<char>) -> nat
    decreases s.len(),
{
    if s.len() == 0 {
        0
    } else {
        hex_value(s.drop_last()) * 16 + hex_digit(s.last())
    }
}

/// A dotted-quad field: one to three decimal digits, no leading zero unless
/// the field is `0` itself, at most 255.
pub open spec fn octet_value(f: Seq<char>) -> Option<u8> {
    if 1 <= f.len() <= 3 && all_dec(f) && (f.len() == 1 || f[0] != '0') && dec_value(f) <= 255 {
        Some(dec_value(f) as u8)
    } else {
        None
    }
}

/// An IPv6 group: one to four hexadecimal digits of either case.
pub open spec fn group_value(f: Seq<char>) -> Option<u16> {
    if 1 <= f.len() <= 4 && all_hex(f) {
        Some(hex_value(f) as u16)
    } else {
        None
    }
}

/// The four octets of a dotted-quad IPv4 text.
pub open spec fn ipv4_octets(s: Seq<char>) -> Option<Seq<u8>> {
    let p = split_on(s, '.');
    if p.len() == 4 && (forall|i: int| 0 <= i < 4 ==> (#[trigger] octet_value(p[i])) is Some) {
        Some(Seq::new(4, |i: int| octet_value(p[i])->0))
    } else {
        None
    }
}

pub open spec fn all_groups(p: Seq<Seq<char>>) -> bool {
    forall|i: int| 0 <= i < p.len() ==> (#[trigger] group_value(p[i])) is Some
}

pub open spec fn groups_of(p: Seq<Seq<char>>) -> Seq<u16> {
    p.map_values(|f: Seq<char>| group_value(f)->0)
}

/// The two groups that an embedded IPv4 address stands for.
pub open spec fn v4_groups(o: Seq<u8>) -> Seq<u16> {
    seq![(o[0] * 256 + o[1]) as u16, (o[2] * 256 + o[3]) as u16]
}

/// Colon-separated groups where the last piece may be an embedded IPv4 address.
pub open spec fn tail_groups(p: Seq<Seq<char>>) -> Option<Seq<u16>> {
    if all_groups(p) {
        Some(groups_of(p))
    } else if p.len() > 0 && all_groups(p.drop_last()) && ipv4_octets(p.last()) is Some {
        Some(groups_of(p.drop_last()) + v4_groups(ipv4_octets(p.last())->0))
    } else {
        None
    }
}

/// The first index at or after `i` where `"::"` starts.
pub open spec fn find_double_colon(s: Seq<char>, i: int) -> Option<int>
    decreases s.len() - i,
{
    if i < 0 || i + 1 >= s.len() {
        None
    } else if s[i] == ':' && s[i + 1] == ':' {
        Some(i)
    } else {
        find_double_colon(s, i + 1)
    }
}

/// The eight groups of an IPv6 text: either eight groups (the last two may be
/// an embedded IPv4 address), or a head and a tail of groups around the first
/// `"::"`, which stands for at least one zero group.
pub open spec fn ipv6_groups(s: Seq<char>) -> Option<Seq<u16>> {
    match find_double_colon(s, 0) {
        Some(k) => {
            let head = s.subrange(0, k);
            let tail = s.subrange(k + 2, s.len() as int);
            let hok = head.len() == 0 || all_groups(split_on(head, ':'));
            let hg = if head.len() == 0 {
                Seq::<u16>::empty()
            } else {
                groups_of(split_on(head, ':'))
            };
            let tg = if tail.len() == 0 {
                Some(Seq::<u16>::empty())
            } else {
                tail_groups(split_on(tail, ':'))
            };
            if hok && tg is Some && hg.len() + tg->0.len() <= 7 {
                Some(hg + Seq::new((8 - hg.len() - tg->0.len()) as nat, |i: int| 0u16) + tg->0)
            } else {
                None
            }
        },
        None => match tail_groups(split_on(s, ':')) {
            Some(g) => if g.len() == 8 {
                Some(g)
            } else {
                None
            },
            None => None,
        },
    }
}

pub open spec fn v6_of(g: Seq<u16>) -> IpAddress {
    IpAddress::V6(g[0], g[1], g[2], g[3], g[4], g[5], g[6], g[7])
}

/// What `Ipv4Addr::from_str` accepts, as an address.
pub open spec fn ipv4_spec(s: Seq<char>) -> Option<IpAddress> {
    match ipv4_octets(s) {
        Some(o) => Some(IpAddress::V4(o[0], o[1], o[2], o[3])),
        None => None,
    }
}

/// What `Ipv6Addr::from_str` accepts, as an address.
pub open spec fn ipv6_spec(s: Seq<char>) -> Option<IpAddress> {
    match ipv6_groups(s) {
        Some(g) => Some(v6_of(g)),
        None => None,
    }
}

/// What `IpAddr::from_str` accepts: IPv4 first, then IPv6.
pub open spec fn ip_spec(s: Seq<char>) -> Option<IpAddress> {
    match ipv4_spec(s) {
        Some(a) => Some(a),
        None => ipv6_spec(s),
    }
}

fn octet_exec(f: &Vec<char>) -> (r: Option<u8>)
    ensures
        r == octet_value(f@),
{
    let n = f.len();
    if n < 1 || n > 3 {
        return None;
    }
    if n > 1 && f[0] == '0' {
        return None;
    }
    let mut acc: u32 = 0;
    let mut i: usize = 0;
    assert(f@.subrange(0, 0) =~= Seq::<char>::empty());
    while i < n
        invariant
            n == f@.len(),
            1 <= n <= 3,
            i <= n,
            all_dec(f@.subrange(0, i as int)),
            acc as nat == dec_value(f@.subrange(0, i as int)),
            acc < (if i == 0 { 1u32 } else if i == 1 { 10u32 } else if i == 2 { 100u32 } else { 1000u32 }),
        decreases n - i,
    {
        let c = f[i];
        if !('0' <= c && c <= '9') {
            assert(!is_dec_digit(f@[i as int]));
            assert(!all_dec(f@));
            return None;
        }
        let ghost p = f@.subrange(0, i as int);
        assert(f@.subrange(0, i + 1).drop_last() =~= p);
        acc = acc * 10 + (c as u32 - '0' as u32);
        i = i + 1;
        assert(all_dec(f@.subrange(0, i as int))) by {
            assert forall|j: int| 0 <= j < i implies is_dec_digit(
                #[trigger] f@.subrange(0, i as int)[j],
            ) by {
                if j < p.len() {
                    assert(f@.subrange(0, i as int)[j] == p[j]);
                }
            }
        }
    }
    assert(f@.subrange(0, n as int) =~= f@);
    if acc > 255 {
        None
    } else {
        Some(acc as u8)
    }
}

fn hex_digit_exec(c: char) -> (r: Option<u32>)
    ensures
        r is Some <==> is_hex_digit(c),
        r matches Some(d) ==> d as nat == hex_digit(c) && d < 16,
{
    if '0' <= c && c <= '9' {
        Some(c as u32 - '0' as u32)
    } else if 'a' <= c && c <= 'f' {
        Some(c as u32 - 'a' as u32 + 10)
    } else if 'A' <= c && c <= 'F' {
        Some(c as u32 - 'A' as u32 + 10)
    } else {
        None
    }
}

fn group_exec(f: &Vec<char>) -> (r: Option<u16>)
    ensures
        r == group_value(f@),
{
    let n = f.len();
    if n < 1 || n > 4 {
        return None;
    }
    let mut acc: u32 = 0;
    let mut i: usize = 0;
    assert(f@.subrange(0, 0) =~= Seq::<char>::empty());
    while i < n
        invariant
            n == f@.len(),
            1 <= n <= 4,
            i <= n,
            all_hex(f@.subrange(0, i as int)),
            acc as nat == hex_value(f@.subrange(0, i as int)),
            acc < (if i == 0 { 1u32 } else if i == 1 { 16u32 } else if i == 2 { 256u32 } else if i
                == 3 { 4096u32 } else { 65536u32 }),
        decreases n - i,
    {
        let c = f[i];
        match hex_digit_exec(c) {
            None => {
                assert(!all_hex(f@));
                return None;
            },
            Some(d) => {
                let ghost p = f@.subrange(0, i as int);
                assert(f@.subrange(0, i + 1).drop_last() =~= p);
                acc = acc * 16 + d;
                i = i + 1;
                assert(all_hex(f@.subrange(0, i as int))) by {
                    assert forall|j: int| 0 <= j < i implies is_hex_digit(
                        #[trigger] f@.subrange(0, i as int)[j],
                    ) by {
                        if j < p.len() {
                            assert(f@.subrange(0, i as int)[j] == p[j]);
                        }
                    }
                }
            },
        }
    }
    assert(f@.subrange(0, n as int) =~= f@);
    Some(acc as u16)
}

/// The octets of `v[from..to]` read as a dotted-quad IPv4 text.
fn ipv4_exec(v: &Vec<char>, from: usize, to: usize) -> (r: Option<(u8, u8, u8, u8)>)
    requires
        from <= to <= v@.len(),
    ensures
        match ipv4_octets(v@.subrange(from as int, to as int)) {
            Some(o) => r == Some((o[0], o[1], o[2], o[3])),
            None => r is None,
        },
{
    let p = split_chars(v, from, to, '.');
    let ghost ps = split_on(v@.subrange(from as int, to as int), '.');
    assert(views(p@) == ps);
    if p.len() != 4 {
        return None;
    }
    assert(p@[0]@ == ps[0] && p@[1]@ == ps[1] && p@[2]@ == ps[2] && p@[3]@ == ps[3]);
    let a = octet_exec(&p[0]);
    let b = octet_exec(&p[1]);
    let c = octet_exec(&p[2]);
    let d = octet_exec(&p[3]);
    match (a, b, c, d) {
        (Some(a), Some(b), Some(c), Some(d)) => {
            assert(forall|i: int| 0 <= i < 4 ==> (#[trigger] octet_value(ps[i])) is Some) by {
                assert forall|i: int| 0 <= i < 4 implies (#[trigger] octet_value(ps[i])) is Some by {
                    if i == 0 {
                    } else if i == 1 {
                    } else if i == 2 {
                    } else {
                    }
                }
            }
            Some((a, b, c, d))
        },
        _ => {
            assert(!(octet_value(ps[0]) is Some && octet_value(ps[1]) is Some && octet_value(ps[2]) is Some && octet_value(ps[3]) is Some));
            None
        },
    }
}

/// `v[from..to]` as an IPv4 address (`Ipv4Addr::from_str`).
pub fn parse_ipv4_range(v: &Vec<char>, from: usize, to: usize) -> (r: Option<IpAddress>)
    requires
        from <= to <= v@.len(),
    ensures
        r == ipv4_spec(v@.subrange(from as int, to as int)),
{
    match ipv4_exec(v, from, to) {
        Some((a, b, c, d)) => Some(IpAddress::V4(a, b, c, d)),
        None => None,
    }
}


/// The groups of the first `n` pieces, if each is a valid group.
fn groups_exec(p: &Vec<Vec<char>>, n: usize) -> (r: Option<Vec<u16>>)
    requires
        n <= p@.len(),
    ensures
        r is Some <==> all_groups(views(p@).subrange(0, n as int)),
        r matches Some(g) ==> g@ == groups_of(views(p@).subrange(0, n as int)),
{
    let mut g: Vec<u16> = Vec::new();
    let mut k: usize = 0;
    while k < n
        invariant
            n <= p@.len(),
            k <= n,
            all_groups(views(p@).subrange(0, k as int)),
            g@ == groups_of(views(p@).subrange(0, k as int)),
        decreases n - k,
    {
        assert(views(p@)[k as int] == p@[k as int]@);
        match group_exec(&p[k]) {
            None => {
                assert(group_value(views(p@).subrange(0, n as int)[k as int]) is None);
                return None;
            },
            Some(x) => {
                g.push(x);
                k = k + 1;
                assert(views(p@).subrange(0, k as int).drop_last() =~= views(p@).subrange(
                    0,
                    k - 1,
                ));
                assert(g@ =~= groups_of(views(p@).subrange(0, k as int)));
                assert(all_groups(views(p@).subrange(0, k as int))) by {
                    assert forall|j: int| 0 <= j < k implies (#[trigger] group_value(
                        views(p@).subrange(0, k as int)[j],
                    )) is Some by {
                        if j < k - 1 {
                            assert(views(p@).subrange(0, k as int)[j] == views(p@).subrange(
                                0,
                                k - 1,
                            )[j]);
                        }
                    }
                }
            },
        }
    }
    Some(g)
}

/// `tail_groups` of the pieces.
fn tail_groups_exec(p: &Vec<Vec<char>>) -> (r: Option<Vec<u16>>)
    ensures
        match tail_groups(views(p@)) {
            Some(g) => r is Some && r->0@ == g,
            None => r is None,
        },
{
    let n = p.len();
    assert(views(p@).subrange(0, n as int) =~= views(p@));
    match groups_exec(p, n) {
        Some(g) => {
            return Some(g);
        },
        None => {},
    }
    if n == 0 {
        return None;
    }
    assert(views(p@).subrange(0, n - 1) =~= views(p@).drop_last());
    let last = &p[n - 1];
    assert(views(p@).last() == last@);
    assert(last@.subrange(0, last@.len() as int) =~= last@);
    match (groups_exec(p, n - 1), ipv4_exec(last, 0, last.len())) {
        (Some(g), Some((a, b, c, d))) => {
            let mut r = g;
            let ghost gs = r@;
            r.push((a as u16) * 256 + (b as u16));
            r.push((c as u16) * 256 + (d as u16));
            assert(r@ =~= gs + v4_groups(ipv4_octets(last@)->0));
            Some(r)
        },
        _ => None,
    }
}

/// The relative index of the first `"::"` in `v[from..to]`.
fn find_double_colon_exec(v: &Vec<char>, from: usize, to: usize) -> (r: Option<usize>)
    requires
        from <= to <= v@.len(),
    ensures
        match find_double_colon(v@.subrange(from as int, to as int), 0) {
            Some(k) => r == Some(k as usize) && 0 <= k && k + 2 <= to - from,
            None => r is None,
        },
{
    let ghost s = v@.subrange(from as int, to as int);
    let n = to - from;
    if n < 2 {
        return None;
    }
    let mut i: usize = 0;
    while i < n - 1
        invariant
            from <= to <= v@.len(),
            n == to - from,
            n >= 2,
            i <= n,
            s == v@.subrange(from as int, to as int),
            find_double_colon(s, 0) == find_double_colon(s, i as int),
        decreases n - i,
    {
        if v[from + i] == ':' && v[from + i + 1] == ':' {
            assert(s[i as int] == ':' && s[i + 1] == ':');
            return Some(i);
        }
        assert(find_double_colon(s, i as int) == find_double_colon(s, i + 1));
        i = i + 1;
    }
    None
}

/// The eight groups of `v[from..to]` read as an IPv6 text.
fn ipv6_exec(v: &Vec<char>, from: usize, to: usize) -> (r: Option<Vec<u16>>)
    requires
        from <= to <= v@.len(),
    ensures
        match ipv6_groups(v@.subrange(from as int, to as int)) {
            Some(g) => r is Some && r->0@ == g,
            None => r is None,
        },
{
    let ghost s = v@.subrange(from as int, to as int);
    match find_double_colon_exec(v, from, to) {
        Some(k) => {
            let hs = from + k;
            let ts = from + k + 2;
            let ghost head = s.subrange(0, k as int);
            let ghost tail = s.subrange(k + 2, s.len() as int);
            assert(head =~= v@.subrange(from as int, hs as int));
            assert(tail =~= v@.subrange(ts as int, to as int));
            let hg: Vec<u16> = if k == 0 {
                Vec::new()
            } else {
                let hp = split_chars(v, from, hs, ':');
                assert(views(hp@).subrange(0, hp@.len() as int) =~= views(hp@));
                match groups_exec(&hp, hp.len()) {
                    Some(g) => g,
                    None => {
                        return None;
                    },
                }
            };
            let tg: Vec<u16> = if ts == to {
                Vec::new()
            } else {
                let tp = split_chars(v, ts, to, ':');
                match tail_groups_exec(&tp) {
                    Some(g) => g,
                    None => {
                        return None;
                    },
                }
            };
            if hg.len() > 7 || tg.len() > 7 - hg.len() {
                return None;
            }
            let zeros = 8 - hg.len() - tg.len();
            let mut r: Vec<u16> = Vec::new();
            let mut i: usize = 0;
            while i < hg.len()
                invariant
                    i <= hg@.len(),
                    r@ == hg@.subrange(0, i as int),
                decreases hg@.len() - i,
            {
                r.push(hg[i]);
                i = i + 1;
                assert(r@ =~= hg@.subrange(0, i as int));
            }
            assert(hg@.subrange(0, hg@.len() as int) =~= hg@);
            let mut z: usize = 0;
            while z < zeros
                invariant
                    z <= zeros,
                    r@ == hg@ + Seq::new(z as nat, |j: int| 0u16),
                decreases zeros - z,
            {
                r.push(0u16);
                z = z + 1;
                assert(r@ =~= hg@ + Seq::new(z as nat, |j: int| 0u16));
            }
            let mut t: usize = 0;
            while t < tg.len()
                invariant
                    t <= tg@.len(),
                    r@ == hg@ + Seq::new(zeros as nat, |j: int| 0u16) + tg@.subrange(0, t as int),
                decreases tg@.len() - t,
            {
                r.push(tg[t]);
                t = t + 1;
                assert(r@ =~= hg@ + Seq::new(zeros as nat, |j: int| 0u16) + tg@.subrange(
                    0,
                    t as int,
                ));
            }
            assert(tg@.subrange(0, tg@.len() as int) =~= tg@);
            Some(r)
        },
        None => {
            let p = split_chars(v, from, to, ':');
            match tail_groups_exec(&p) {
                Some(g) => if g.len() == 8 {
                    Some(g)
                } else {
                    None
                },
                None => None,
            }
        },
    }
}

/// `v[from..to]` as an IPv6 address (`Ipv6Addr::from_str`).
pub fn parse_ipv6_range(v: &Vec<char>, from: usize, to: usize) -> (r: Option<IpAddress>)
    requires
        from <= to <= v@.len(),
    ensures
        r == ipv6_spec(v@.subrange(from as int, to as int)),
{
    match ipv6_exec(v, from, to) {
        Some(g) => {
            assert(g@.len() == 8);
            Some(IpAddress::V6(g[0], g[1], g[2], g[3], g[4], g[5], g[6], g[7]))
        },
        None => None,
    }
}

/// `v[from..to]` as an IP address (`IpAddr::from_str`).
pub fn parse_ip_range(v: &Vec<char>, from: usize, to: usize) -> (r: Option<IpAddress>)
    requires
        from <= to <= v@.len(),
    ensures
        r == ip_spec(v@.subrange(from as int, to as int)),
{
    match parse_ipv4_range(v, from, to) {
        Some(a) => Some(a),
        None => parse_ipv6_range(v, from, to),
    }
}

/// `IpAddr::from_str`: an IPv4 dotted quad, or an IPv6 text.
pub fn parse_ip(s: &str) -> (r: Option<IpAddress>)
    ensures
        r == ip_spec(s@),
{
    let v = chars_of(s);
    assert(v@.subrange(0, v@.len() as int) =~= v@);
    parse_ip_range(&v, 0, v.len())
}


/// The character of a decimal digit.
pub open spec fn digit_char(d: nat) -> char {
    (d + 48) as char
}

/// The canonical decimal text of a number below 1000: no leading zeros.
pub open spec fn dec_text(n: nat) -> Seq<char> {
    if n < 10 {
        seq![digit_char(n)]
    } else if n < 100 {
        seq![digit_char(n / 10), digit_char(n % 10)]
    } else {
        seq![digit_char(n / 100), digit_char((n / 10) % 10), digit_char(n % 10)]
    }
}

/// The dotted-quad text of four octets, as `Ipv4Addr`'s `Display` writes it.
pub open spec fn ipv4_text(a: u8, b: u8, c: u8, d: u8) -> Seq<char> {
    dec_text(a as nat) + seq!['.'] + dec_text(b as nat) + seq!['.'] + dec_text(c as nat) + seq!['.']
        + dec_text(d as nat)
}

proof fn lemma_octet_text(n: u8)
    ensures
        octet_value(dec_text(n as nat)) == Some(n),
        forall|i: int| 0 <= i < dec_text(n as nat).len() ==> dec_text(n as nat)[i] != '.',
{
    let t = dec_text(n as nat);
    reveal_with_fuel(dec_value, 4);
    assert(all_dec(t));
    if n < 10 {
        assert(t.drop_last() =~= Seq::<char>::empty());
    } else if n < 100 {
        assert(t.drop_last() =~= seq![digit_char(n as nat / 10)]);
        assert(t.drop_last().drop_last() =~= Seq::<char>::empty());
        assert(n as nat == (n as nat / 10) * 10 + n as nat % 10);
    } else {
        assert(t.drop_last() =~= seq![digit_char(n as nat / 100), digit_char((n as nat / 10) % 10)]);
        assert(t.drop_last().drop_last() =~= seq![digit_char(n as nat / 100)]);
        assert(t.drop_last().drop_last().drop_last() =~= Seq::<char>::empty());
        assert(n as nat == (n as nat / 100) * 100 + ((n as nat / 10) % 10) * 10 + n as nat % 10);
    }
}

/// Every dotted quad that `Ipv4Addr`'s `Display` writes is read back as the
/// same address.
pub proof fn law_ipv4_text_roundtrip(a: u8, b: u8, c: u8, d: u8)
    ensures
        ipv4_spec(ipv4_text(a, b, c, d)) == Some(IpAddress::V4(a, b, c, d)),
        ip_spec(ipv4_text(a, b, c, d)) == Some(IpAddress::V4(a, b, c, d)),
{
    lemma_octet_text(a);
    lemma_octet_text(b);
    lemma_octet_text(c);
    lemma_octet_text(d);
    let ta = dec_text(a as nat);
    let tb = dec_text(b as nat);
    let tc = dec_text(c as nat);
    let td = dec_text(d as nat);
    lemma_split_without_sep(ta, '.');
    lemma_split_without_sep(tb, '.');
    lemma_split_without_sep(tc, '.');
    lemma_split_without_sep(td, '.');
    lemma_split_append(ta, '.', tb);
    lemma_split_append(ta + seq!['.'] + tb, '.', tc);
    lemma_split_append(ta + seq!['.'] + tb + seq!['.'] + tc, '.', td);
    let p = split_on(ipv4_text(a, b, c, d), '.');
    assert(p =~= seq![ta, tb, tc, td]);
    assert(forall|i: int| 0 <= i < 4 ==> (#[trigger] octet_value(p[i])) is Some) by {
        assert forall|i: int| 0 <= i < 4 implies (#[trigger] octet_value(p[i])) is Some by {
            if i == 0 {
            } else if i == 1 {
            } else if i == 2 {
            } else {
            }
        }
    }
}


proof fn lemma_digit_char(c: char)
    requires
        is_dec_digit(c),
    ensures
        digit_char(dec_digit(c)) == c,
        dec_digit(c) < 10,
{
}

proof fn lemma_octet_canonical(f: Seq<char>)
    requires
        octet_value(f) is Some,
    ensures
        f == dec_text(octet_value(f)->0 as nat),
{
    reveal_with_fuel(dec_value, 4);
    let n = dec_value(f);
    assert(is_dec_digit(f[0]));
    lemma_digit_char(f[0]);
    if f.len() == 1 {
        assert(f.drop_last() =~= Seq::<char>::empty());
        assert(f =~= seq![digit_char(n)]);
    } else if f.len() == 2 {
        assert(is_dec_digit(f[1]));
        lemma_digit_char(f[1]);
        assert(f.drop_last() =~= seq![f[0]]);
        assert(f.drop_last().drop_last() =~= Seq::<char>::empty());
        assert(f[0] != '0');
        assert(dec_digit(f[0]) >= 1);
        assert(n == dec_digit(f[0]) * 10 + dec_digit(f[1]));
        assert(n / 10 == dec_digit(f[0]) && n % 10 == dec_digit(f[1]));
        assert(f =~= seq![digit_char(n / 10), digit_char(n % 10)]);
    } else {
        assert(is_dec_digit(f[1]));
        assert(is_dec_digit(f[2]));
        lemma_digit_char(f[1]);
        lemma_digit_char(f[2]);
        assert(f.drop_last() =~= seq![f[0], f[1]]);
        assert(f.drop_last().drop_last() =~= seq![f[0]]);
        assert(f.drop_last().drop_last().drop_last() =~= Seq::<char>::empty());
        assert(dec_digit(f[0]) >= 1);
        assert(n == dec_digit(f[0]) * 100 + dec_digit(f[1]) * 10 + dec_digit(f[2]));
        assert(n / 100 == dec_digit(f[0]) && (n / 10) % 10 == dec_digit(f[1]) && n % 10
            == dec_digit(f[2]));
        assert(f =~= seq![digit_char(n / 100), digit_char((n / 10) % 10), digit_char(n % 10)]);
    }
}

/// Each address has one text: a text read as an IPv4 address is exactly the
/// dotted quad that `Display` writes for it.
pub proof fn law_ipv4_text_unique(s: Seq<char>)
    requires
        ipv4_spec(s) is Some,
    ensures
        ipv4_spec(s) matches Some(IpAddress::V4(a, b, c, d)) && s == ipv4_text(a, b, c, d),
{
    let p = split_on(s, '.');
    assert(octet_value(p[0]) is Some);
    assert(octet_value(p[1]) is Some);
    assert(octet_value(p[2]) is Some);
    assert(octet_value(p[3]) is Some);
    lemma_octet_canonical(p[0]);
    lemma_octet_canonical(p[1]);
    lemma_octet_canonical(p[2]);
    lemma_octet_canonical(p[3]);
    lemma_join_split(s, '.');
    assert(p.drop_last().drop_last().drop_last() =~= seq![p[0]]);
    assert(p.drop_last().drop_last() =~= seq![p[0], p[1]]);
    assert(p.drop_last() =~= seq![p[0], p[1], p[2]]);
    let p1 = p.drop_last().drop_last().drop_last();
    let p2 = p.drop_last().drop_last();
    let p3 = p.drop_last();
    assert(join_on(p1, '.') == p[0]);
    assert(join_on(p2, '.') == join_on(p1, '.') + seq!['.'] + p[1]);
    assert(join_on(p3, '.') == join_on(p2, '.') + seq!['.'] + p[2]);
    assert(join_on(p, '.') == join_on(p3, '.') + seq!['.'] + p[3]);
    let o = ipv4_octets(s)->0;
    assert(o[0] == octet_value(p[0])->0);
    assert(o[1] == octet_value(p[1])->0);
    assert(o[2] == octet_value(p[2])->0);
    assert(o[3] == octet_value(p[3])->0);
    assert(s == ipv4_text(o[0], o[1], o[2], o[3]));
}

} // verus!
