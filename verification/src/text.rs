//! Character-level text operations over `&str`, each proved against a
//! specification on `Seq<char>`.

use vstd::prelude::*;

verus! {

/// The characters with the Unicode `White_Space` property, which is what
/// `str::trim` removes.
pub open spec fn is_unicode_space(c: char) -> bool {
    let u = c as u32;
    ||| u == 0x09 || u == 0x0A || u == 0x0B || u == 0x0C || u == 0x0D || u == 0x20
    ||| u == 0x85 || u == 0xA0 || u == 0x1680
    ||| (0x2000 <= u && u <= 0x200A)
    ||| u == 0x2028 || u == 0x2029 || u == 0x202F || u == 0x205F || u == 0x3000
}

pub fn is_space(c: char) -> (r: bool)
    ensures
        r == is_unicode_space(c),
{
    let u = c as u32;
    u == 0x09 || u == 0x0A || u == 0x0B || u == 0x0C || u == 0x0D || u == 0x20 || u == 0x85
        || u == 0xA0 || u == 0x1680 || (0x2000 <= u && u <= 0x200A) || u == 0x2028 || u == 0x2029
        || u == 0x202F || u == 0x205F || u == 0x3000
}

/// Appends one character to a `String` (`String::push`).
#[verifier::external_body]
fn push_char(s: &mut String, c: char)
    ensures
        final(s)@ == old(s)@.push(c),
{
    s.push(c);
}

/// The characters of a string slice, in order.
pub fn chars_of(s: &str) -> (v: Vec<char>)
    ensures
        v@ == s@,
{
    let mut v: Vec<char> = Vec::new();
    let n = s.unicode_len();
    let mut i: usize = 0;
    while i < n
        invariant
            n == s@.len(),
            i <= n,
            v@ == s@.subrange(0, i as int),
        decreases n - i,
    {
        let c = s.get_char(i);
        v.push(c);
        i = i + 1;
        assert(v@ =~= s@.subrange(0, i as int));
    }
    assert(v@ =~= s@);
    v
}

/// The string made of `v[from..to]`.
pub fn string_of(v: &Vec<char>, from: usize, to: usize) -> (r: String)
    requires
        from <= to <= v@.len(),
    ensures
        r@ == v@.subrange(from as int, to as int),
{
    let mut r = String::new();
    let mut i = from;
    while i < to
        invariant
            from <= i <= to <= v@.len(),
            r@ == v@.subrange(from as int, i as int),
        decreases to - i,
    {
        push_char(&mut r, v[i]);
        i = i + 1;
        assert(r@ =~= v@.subrange(from as int, i as int));
    }
    r
}

/// A copy of a string slice as an owned `String`.
pub fn owned(s: &str) -> (r: String)
    ensures
        r@ == s@,
{
    s.to_owned()
}


/// Which characters a trim removes.
#[derive(Clone, Copy, PartialEq, Eq, Debug)]
pub enum Strip {
    /// Unicode white space (`str::trim`).
    Spaces,
    /// `'['` and `']'` (`trim_matches(['[', ']'])`).
    Brackets,
    /// `'.'` (`trim_end_matches('.')`).
    Dots,
}

pub open spec fn strips(k: Strip, c: char) -> bool {
    match k {
        Strip::Spaces => is_unicode_space(c),
        Strip::Brackets => c == '[' || c == ']',
        Strip::Dots => c == '.',
    }
}

fn strips_exec(k: Strip, c: char) -> (r: bool)
    ensures
        r == strips(k, c),
{
    match k {
        Strip::Spaces => is_space(c),
        Strip::Brackets => c == '[' || c == ']',
        Strip::Dots => c == '.',
    }
}

/// `s` without its leading characters of kind `k`.
pub open spec fn trim_start_by(s: Seq<char>, k: Strip) -> Seq<char>
    decreases s.len(),
{
    if s.len() > 0 && strips(k, s[0]) {
        trim_start_by(s.drop_first(), k)
    } else {
        s
    }
}

/// `s` without its trailing characters of kind `k`.
pub open spec fn trim_end_by(s: Seq<char>, k: Strip) -> Seq<char>
    decreases s.len(),
{
    if s.len() > 0 && strips(k, s.last()) {
        trim_end_by(s.drop_last(), k)
    } else {
        s
    }
}

/// `s` without leading and trailing characters of kind `k`.
pub open spec fn trim_by(s: Seq<char>, k: Strip) -> Seq<char> {
    trim_end_by(trim_start_by(s, k), k)
}

/// What `str::trim` returns.
pub open spec fn trim_spaces(s: Seq<char>) -> Seq<char> {
    trim_by(s, Strip::Spaces)
}

/// The first index at or after `from` that is not of kind `k`, before `to`.
pub fn skip_start(v: &Vec<char>, from: usize, to: usize, k: Strip) -> (r: usize)
    requires
        from <= to <= v@.len(),
    ensures
        from <= r <= to,
        trim_start_by(v@.subrange(from as int, to as int), k) == v@.subrange(r as int, to as int),
{
    let mut i = from;
    while i < to && strips_exec(k, v[i])
        invariant
            from <= i <= to <= v@.len(),
            trim_start_by(v@.subrange(from as int, to as int), k) == trim_start_by(
                v@.subrange(i as int, to as int),
                k,
            ),
        decreases to - i,
    {
        assert(v@.subrange(i as int, to as int).drop_first() =~= v@.subrange(i + 1, to as int));
        i = i + 1;
    }
    i
}

/// The end index once trailing characters of kind `k` are dropped from `v[from..to]`.
pub fn skip_end(v: &Vec<char>, from: usize, to: usize, k: Strip) -> (r: usize)
    requires
        from <= to <= v@.len(),
    ensures
        from <= r <= to,
        trim_end_by(v@.subrange(from as int, to as int), k) == v@.subrange(from as int, r as int),
{
    let mut j = to;
    while j > from && strips_exec(k, v[j - 1])
        invariant
            from <= j <= to <= v@.len(),
            trim_end_by(v@.subrange(from as int, to as int), k) == trim_end_by(
                v@.subrange(from as int, j as int),
                k,
            ),
        decreases j - from,
    {
        assert(v@.subrange(from as int, j as int).drop_last() =~= v@.subrange(
            from as int,
            j - 1,
        ));
        j = j - 1;
    }
    j
}

/// Bounds of `v[from..to]` with both ends trimmed of kind `k`.
pub fn trim_bounds(v: &Vec<char>, from: usize, to: usize, k: Strip) -> (r: (usize, usize))
    requires
        from <= to <= v@.len(),
    ensures
        from <= r.0 <= r.1 <= to,
        trim_by(v@.subrange(from as int, to as int), k) == v@.subrange(r.0 as int, r.1 as int),
{
    let a = skip_start(v, from, to, k);
    let b = skip_end(v, a, to, k);
    (a, b)
}

/// `str::trim`.
pub fn trim(s: &str) -> (r: String)
    ensures
        r@ == trim_spaces(s@),
{
    let v = chars_of(s);
    let (a, b) = trim_bounds(&v, 0, v.len(), Strip::Spaces);
    assert(v@.subrange(0, v@.len() as int) =~= v@);
    string_of(&v, a, b)
}

/// The character sequences held by a vector of character vectors.
pub open spec fn views(v: Seq<Vec<char>>) -> Seq<Seq<char>> {
    v.map_values(|x: Vec<char>| x@)
}

/// `s.split(c)`: the pieces between occurrences of `c`, always at least one.
pub open spec fn split_on(s: Seq<char>, c: char) -> Seq<Seq<char>>
    decreases s.len(),
{
    if s.len() == 0 {
        seq![Seq::<char>::empty()]
    } else {
        let p = split_on(s.drop_last(), c);
        if s.last() == c {
            p.push(Seq::<char>::empty())
        } else {
            p.update(p.len() - 1, p.last().push(s.last()))
        }
    }
}

pub proof fn lemma_split_on_nonempty(s: Seq<char>, c: char)
    ensures
        split_on(s, c).len() >= 1,
    decreases s.len(),
{
    if s.len() > 0 {
        lemma_split_on_nonempty(s.drop_last(), c);
    }
}

/// The pieces of `v[from..to]` between occurrences of `c`.
pub fn split_chars(v: &Vec<char>, from: usize, to: usize, c: char) -> (r: Vec<Vec<char>>)
    requires
        from <= to <= v@.len(),
    ensures
        views(r@) == split_on(v@.subrange(from as int, to as int), c),
{
    let mut done: Vec<Vec<char>> = Vec::new();
    let mut cur: Vec<char> = Vec::new();
    let mut i = from;
    assert(v@.subrange(from as int, from as int) =~= Seq::<char>::empty());
    assert(views(done@).push(cur@) =~= split_on(v@.subrange(from as int, from as int), c));
    while i < to
        invariant
            from <= i <= to <= v@.len(),
            views(done@).push(cur@) == split_on(v@.subrange(from as int, i as int), c),
        decreases to - i,
    {
        let ghost before = v@.subrange(from as int, i as int);
        assert(v@.subrange(from as int, i + 1).drop_last() =~= before);
        proof {
            lemma_split_on_nonempty(before, c);
        }
        if v[i] == c {
            let ghost old_done = done@;
            let ghost old_cur = cur@;
            let piece = cur;
            done.push(piece);
            cur = Vec::new();
            assert(views(done@) =~= views(old_done).push(old_cur));
            assert(views(done@).push(cur@) =~= split_on(before, c).push(Seq::<char>::empty()));
        } else {
            let ghost old_done = views(done@);
            cur.push(v[i]);
            assert(views(done@) =~= old_done);
            assert(views(done@).push(cur@) =~= split_on(before, c).update(
                split_on(before, c).len() - 1,
                split_on(before, c).last().push(v@[i as int]),
            ));
        }
        i = i + 1;
    }
    let ghost old_done = done@;
    let ghost old_cur = cur@;
    done.push(cur);
    assert(views(done@) =~= views(old_done).push(old_cur));
    done
}

/// `str::lines`: pieces split at `'\n'`, each line that ended in `'\n'`
/// losing one trailing `'\r'`, and no final empty line.
pub open spec fn lines_of(s: Seq<char>) -> Seq<Seq<char>> {
    let p = split_on(s, '\n');
    let ended = p.drop_last().map_values(|l: Seq<char>| strip_cr(l));
    if p.last().len() == 0 {
        ended
    } else {
        ended.push(p.last())
    }
}

/// A line without one trailing carriage return.
pub open spec fn strip_cr(l: Seq<char>) -> Seq<char> {
    if l.len() > 0 && l.last() == '\r' {
        l.drop_last()
    } else {
        l
    }
}

/// `str::lines`, each line as its characters.
pub fn lines_chars(s: &str) -> (r: Vec<Vec<char>>)
    ensures
        views(r@) == lines_of(s@),
{
    let v = chars_of(s);
    assert(v@.subrange(0, v@.len() as int) =~= v@);
    let pieces = split_chars(&v, 0, v.len(), '\n');
    proof {
        lemma_split_on_nonempty(s@, '\n');
    }
    let n = pieces.len();
    let mut r: Vec<Vec<char>> = Vec::new();
    let mut k: usize = 0;
    while k + 1 < n
        invariant
            n == views(pieces@).len(),
            n >= 1,
            views(pieces@) == split_on(s@, '\n'),
            k + 1 <= n,
            views(r@) =~= views(pieces@).subrange(0, k as int).map_values(
                |l: Seq<char>| strip_cr(l),
            ),
        decreases n - k,
    {
        let piece = &pieces[k];
        let m = piece.len();
        let line = if m > 0 && piece[m - 1] == '\r' {
            let mut l: Vec<char> = Vec::new();
            let mut t: usize = 0;
            while t + 1 < m
                invariant
                    m == piece@.len(),
                    t + 1 <= m,
                    l@ == piece@.subrange(0, t as int),
                decreases m - t,
            {
                l.push(piece[t]);
                t = t + 1;
                assert(l@ =~= piece@.subrange(0, t as int));
            }
            assert(l@ =~= piece@.drop_last());
            l
        } else {
            piece.clone()
        };
        assert(line@ == strip_cr(views(pieces@)[k as int]));
        let ghost old_r = r@;
        r.push(line);
        assert(views(r@) =~= views(old_r).push(line@));
        k = k + 1;
        assert(views(r@) =~= views(pieces@).subrange(0, k as int).map_values(
            |l: Seq<char>| strip_cr(l),
        ));
    }
    assert(views(pieces@).subrange(0, k as int) =~= views(pieces@).drop_last());
    let last = &pieces[n - 1];
    if last.len() > 0 {
        let ghost old_r = r@;
        let lc = last.clone();
        r.push(lc);
        assert(views(r@) =~= views(old_r).push(last@));
    }
    r
}

/// Whether `v[from..to]` equals `p`.
pub fn range_eq(v: &Vec<char>, from: usize, to: usize, p: &Vec<char>) -> (r: bool)
    requires
        from <= to <= v@.len(),
    ensures
        r == (v@.subrange(from as int, to as int) == p@),
{
    if to - from != p.len() {
        return false;
    }
    let mut i: usize = 0;
    while i < p.len()
        invariant
            from <= to <= v@.len(),
            to - from == p@.len(),
            i <= p@.len(),
            forall|j: int| 0 <= j < i ==> v@[from + j] == p@[j],
        decreases p@.len() - i,
    {
        if v[from + i] != p[i] {
            assert(v@.subrange(from as int, to as int)[i as int] != p@[i as int]);
            return false;
        }
        i = i + 1;
    }
    assert(v@.subrange(from as int, to as int) =~= p@);
    true
}

/// Whether `p` is a prefix of `v[from..to]`.
pub fn range_starts_with(v: &Vec<char>, from: usize, to: usize, p: &Vec<char>) -> (r: bool)
    requires
        from <= to <= v@.len(),
    ensures
        r == p@.is_prefix_of(v@.subrange(from as int, to as int)),
{
    if p.len() > to - from {
        return false;
    }
    let e = from + p.len();
    let b = range_eq(v, from, e, p);
    assert(v@.subrange(from as int, to as int).subrange(0, p@.len() as int) =~= v@.subrange(
        from as int,
        e as int,
    ));
    b
}

/// Whether `p` is a suffix of `v[from..to]`.
pub fn range_ends_with(v: &Vec<char>, from: usize, to: usize, p: &Vec<char>) -> (r: bool)
    requires
        from <= to <= v@.len(),
    ensures
        r == p@.is_suffix_of(v@.subrange(from as int, to as int)),
{
    if p.len() > to - from {
        return false;
    }
    let b = to - p.len();
    let r = range_eq(v, b, to, p);
    assert(v@.subrange(from as int, to as int).subrange(
        (to - from - p@.len()) as int,
        (to - from) as int,
    ) =~= v@.subrange(b as int, to as int));
    r
}


pub open spec fn is_dec_digit(c: char) -> bool {
    '0' <= c && c <= '9'
}

pub open spec fn dec_digit(c: char) -> nat {
    (c as u32 - '0' as u32) as nat
}

pub open spec fn all_dec(s: Seq<char>) -> bool {
    forall|i: int| 0 <= i < s.len() ==> is_dec_digit(#[trigger] s[i])
}

/// The value of a string of decimal digits.
pub open spec fn dec_value(s: Seq<char>) -> nat
    decreases s.len(),
{
    if s.len() == 0 {
        0
    } else {
        dec_value(s.drop_last()) * 10 + dec_digit(s.last())
    }
}

/// What `str::parse` gives for an unsigned integer type whose largest value is
/// `max`: an optional `'+'`, then one or more decimal digits, within range.
pub open spec fn parse_unsigned(s: Seq<char>, max: nat) -> Option<nat> {
    let d = if s.len() > 0 && s[0] == '+' {
        s.drop_first()
    } else {
        s
    };
    if d.len() > 0 && all_dec(d) && dec_value(d) <= max {
        Some(dec_value(d))
    } else {
        None
    }
}

/// `v[from..to]` parsed as an unsigned decimal of at most `max`.
pub fn parse_unsigned_range(v: &Vec<char>, from: usize, to: usize, max: u32) -> (r: Option<u32>)
    requires
        from <= to <= v@.len(),
    ensures
        r matches Some(x) ==> parse_unsigned(v@.subrange(from as int, to as int), max as nat)
            == Some(x as nat),
        r is None ==> parse_unsigned(v@.subrange(from as int, to as int), max as nat) is None,
{
    let ghost s = v@.subrange(from as int, to as int);
    let mut start = from;
    if from < to && v[from] == '+' {
        start = from + 1;
        assert(s.drop_first() =~= v@.subrange(start as int, to as int));
    }
    let ghost d = v@.subrange(start as int, to as int);
    assert(d == (if s.len() > 0 && s[0] == '+' { s.drop_first() } else { s }));
    if start == to {
        return None;
    }
    let mut acc: u64 = 0;
    let mut i = start;
    assert(v@.subrange(start as int, start as int) =~= Seq::<char>::empty());
    while i < to
        invariant
            start <= i <= to <= v@.len(),
            d == v@.subrange(start as int, to as int),
            s == v@.subrange(from as int, to as int),
            d == (if s.len() > 0 && s[0] == '+' { s.drop_first() } else { s }),
            all_dec(v@.subrange(start as int, i as int)),
            acc as nat == if dec_value(v@.subrange(start as int, i as int)) <= max as nat {
                dec_value(v@.subrange(start as int, i as int))
            } else {
                max as nat + 1
            },
        decreases to - i,
    {
        let c = v[i];
        if !('0' <= c && c <= '9') {
            assert(d[i - start] == c);
            assert(!is_dec_digit(d[i - start]));
            assert(!all_dec(d));
            return None;
        }
        let dg = (c as u32 - '0' as u32) as u64;
        let ghost p = v@.subrange(start as int, i as int);
        assert(v@.subrange(start as int, i + 1).drop_last() =~= p);
        assert(v@.subrange(start as int, i + 1).last() == c);
        let next = acc * 10 + dg;
        if next > max as u64 {
            acc = max as u64 + 1;
        } else {
            acc = next;
        }
        i = i + 1;
        assert(all_dec(v@.subrange(start as int, i as int))) by {
            assert forall|j: int| 0 <= j < v@.subrange(start as int, i as int).len() implies
                is_dec_digit(#[trigger] v@.subrange(start as int, i as int)[j]) by {
                if j < p.len() {
                    assert(v@.subrange(start as int, i as int)[j] == p[j]);
                }
            }
        }
    }
    if acc > max as u64 {
        None
    } else {
        Some(acc as u32)
    }
}


/// The index of the last `c` in `s`.
pub open spec fn rfind_char(s: Seq<char>, c: char) -> Option<int>
    decreases s.len(),
{
    if s.len() == 0 {
        None
    } else if s.last() == c {
        Some(s.len() - 1)
    } else {
        rfind_char(s.drop_last(), c)
    }
}

/// The index in `v` of the last `c` within `v[from..to]`.
pub fn rfind_in(v: &Vec<char>, from: usize, to: usize, c: char) -> (r: Option<usize>)
    requires
        from <= to <= v@.len(),
    ensures
        match rfind_char(v@.subrange(from as int, to as int), c) {
            Some(k) => r == Some((from + k) as usize) && 0 <= k < to - from,
            None => r is None,
        },
{
    let mut j = to;
    while j > from
        invariant
            from <= j <= to <= v@.len(),
            rfind_char(v@.subrange(from as int, to as int), c) == rfind_char(
                v@.subrange(from as int, j as int),
                c,
            ),
        decreases j - from,
    {
        assert(v@.subrange(from as int, j as int).drop_last() =~= v@.subrange(
            from as int,
            j - 1,
        ));
        if v[j - 1] == c {
            return Some(j - 1);
        }
        j = j - 1;
    }
    None
}

pub open spec fn ascii_upper(c: char) -> char {
    if 'a' <= c && c <= 'z' {
        ((c as u8) - 32) as char
    } else {
        c
    }
}

pub open spec fn ascii_lower(c: char) -> char {
    if 'A' <= c && c <= 'Z' {
        ((c as u8) + 32) as char
    } else {
        c
    }
}

/// `str::to_ascii_uppercase`.
pub open spec fn upper_ascii(s: Seq<char>) -> Seq<char> {
    s.map_values(|c: char| ascii_upper(c))
}

/// `str::to_ascii_lowercase`.
pub open spec fn lower_ascii(s: Seq<char>) -> Seq<char> {
    s.map_values(|c: char| ascii_lower(c))
}

fn ascii_upper_exec(c: char) -> (r: char)
    ensures
        r == ascii_upper(c),
{
    if 'a' <= c && c <= 'z' {
        ((c as u8) - 32) as char
    } else {
        c
    }
}

fn ascii_lower_exec(c: char) -> (r: char)
    ensures
        r == ascii_lower(c),
{
    if 'A' <= c && c <= 'Z' {
        ((c as u8) + 32) as char
    } else {
        c
    }
}

/// The characters of `v[from..to]` mapped to ASCII upper case.
pub fn upper_range(v: &Vec<char>, from: usize, to: usize) -> (r: String)
    requires
        from <= to <= v@.len(),
    ensures
        r@ == upper_ascii(v@.subrange(from as int, to as int)),
{
    let mut r = String::new();
    let mut i = from;
    while i < to
        invariant
            from <= i <= to <= v@.len(),
            r@ == upper_ascii(v@.subrange(from as int, i as int)),
        decreases to - i,
    {
        let u = ascii_upper_exec(v[i]);
        push_char(&mut r, u);
        i = i + 1;
        assert(r@ =~= upper_ascii(v@.subrange(from as int, i as int)));
    }
    r
}

/// The characters of `v[from..to]` mapped to ASCII lower case.
pub fn lower_range(v: &Vec<char>, from: usize, to: usize) -> (r: Vec<char>)
    requires
        from <= to <= v@.len(),
    ensures
        r@ == lower_ascii(v@.subrange(from as int, to as int)),
{
    let mut r: Vec<char> = Vec::new();
    let mut i = from;
    while i < to
        invariant
            from <= i <= to <= v@.len(),
            r@ == lower_ascii(v@.subrange(from as int, i as int)),
        decreases to - i,
    {
        let u = ascii_lower_exec(v[i]);
        r.push(u);
        i = i + 1;
        assert(r@ =~= lower_ascii(v@.subrange(from as int, i as int)));
    }
    r
}

/// A `String` holding `a` followed by `b`.
pub fn concat_text(a: &str, b: &str) -> (r: String)
    ensures
        r@ == a@ + b@,
{
    let mut r = owned(a);
    r.append(b);
    r
}


/// Whether two texts are equal.
pub fn text_eq(a: &str, b: &str) -> (r: bool)
    ensures
        r == (a@ == b@),
{
    let v = chars_of(a);
    let w = chars_of(b);
    assert(v@.subrange(0, v@.len() as int) =~= v@);
    range_eq(&v, 0, v.len(), &w)
}


/// A piece with no `c` in it splits into itself.
pub proof fn lemma_split_without_sep(s: Seq<char>, c: char)
    requires
        forall|i: int| 0 <= i < s.len() ==> s[i] != c,
    ensures
        split_on(s, c) == seq![s],
    decreases s.len(),
{
    if s.len() > 0 {
        assert(s[s.len() - 1] != c);
        assert forall|i: int| 0 <= i < s.drop_last().len() implies s.drop_last()[i] != c by {
            assert(s.drop_last()[i] == s[i]);
        }
        lemma_split_without_sep(s.drop_last(), c);
        assert(s.drop_last().push(s.last()) =~= s);
        assert(seq![s.drop_last()].update(0, s.drop_last().push(s.last())) =~= seq![s]);
    } else {
        assert(s =~= Seq::<char>::empty());
    }
}

/// Splitting `s`, a separator, then `t` gives the pieces of `s` followed by
/// those of `t`.
pub proof fn lemma_split_append(s: Seq<char>, c: char, t: Seq<char>)
    ensures
        split_on(s + seq![c] + t, c) == split_on(s, c) + split_on(t, c),
    decreases t.len(),
{
    lemma_split_on_nonempty(s, c);
    lemma_split_on_nonempty(t, c);
    if t.len() == 0 {
        assert(s + seq![c] + t =~= s.push(c));
        assert((s.push(c)).drop_last() =~= s);
        assert(split_on(s, c).push(Seq::<char>::empty()) =~= split_on(s, c) + seq![Seq::<char>::empty()]);
    } else {
        let u = s + seq![c] + t;
        lemma_split_append(s, c, t.drop_last());
        lemma_split_on_nonempty(t.drop_last(), c);
        assert(u.drop_last() =~= s + seq![c] + t.drop_last());
        assert(u.last() == t.last());
        let p = split_on(s, c);
        let q = split_on(t.drop_last(), c);
        if t.last() == c {
            assert((p + q).push(Seq::<char>::empty()) =~= p + q.push(Seq::<char>::empty()));
        } else {
            assert((p + q).update((p + q).len() - 1, (p + q).last().push(t.last())) =~= p + q.update(
                q.len() - 1,
                q.last().push(t.last()),
            ));
        }
    }
}


/// The pieces put back together with `c` between them.
pub open spec fn join_on(p: Seq<Seq<char>>, c: char) -> Seq<char>
    decreases p.len(),
{
    if p.len() <= 1 {
        if p.len() == 1 {
            p[0]
        } else {
            Seq::empty()
        }
    } else {
        join_on(p.drop_last(), c) + seq![c] + p.last()
    }
}

proof fn lemma_join_push_last(p: Seq<Seq<char>>, c: char, x: char)
    requires
        p.len() >= 1,
    ensures
        join_on(p.update(p.len() - 1, p.last().push(x)), c) == join_on(p, c).push(x),
{
    let q = p.update(p.len() - 1, p.last().push(x));
    if p.len() == 1 {
        assert(q[0] == p[0].push(x));
    } else {
        assert(q.drop_last() =~= p.drop_last());
        assert(join_on(p, c) + seq![x] =~= join_on(p.drop_last(), c) + seq![c] + p.last().push(x));
    }
}

/// Splitting loses nothing: the pieces joined again give the text back.
pub proof fn lemma_join_split(s: Seq<char>, c: char)
    ensures
        join_on(split_on(s, c), c) == s,
    decreases s.len(),
{
    if s.len() == 0 {
        assert(join_on(split_on(s, c), c) =~= s);
    } else {
        lemma_join_split(s.drop_last(), c);
        lemma_split_on_nonempty(s.drop_last(), c);
        let p = split_on(s.drop_last(), c);
        if s.last() == c {
            let q = p.push(Seq::<char>::empty());
            assert(q.drop_last() =~= p);
            assert(join_on(q, c) =~= s.drop_last() + seq![c] + Seq::<char>::empty());
            assert(s.drop_last() + seq![c] + Seq::<char>::empty() =~= s);
        } else {
            lemma_join_push_last(p, c, s.last());
            assert(s.drop_last().push(s.last()) =~= s);
        }
    }
}

/// An optional text as characters.
pub open spec fn opt_text(s: Option<String>) -> Option<Seq<char>> {
    match s {
        Some(t) => Some(t@),
        None => None,
    }
}

/// The texts of a sequence of strings.
pub open spec fn texts(v: Seq<String>) -> Seq<Seq<char>> {
    v.map_values(|s: String| s@)
}

/// The texts of an optional vector of strings.
pub open spec fn opt_texts(v: Option<Vec<String>>) -> Option<Seq<Seq<char>>> {
    match v {
        Some(l) => Some(texts(l@)),
        None => None,
    }
}

/// A `Result` of texts, as characters.
pub open spec fn result_texts(r: Result<String, String>) -> Result<Seq<char>, Seq<char>> {
    match r {
        Ok(a) => Ok(a@),
        Err(e) => Err(e@),
    }
}

/// A `Result` with its error text taken as characters.
pub open spec fn text_err<T>(r: Result<T, String>) -> Result<T, Seq<char>> {
    match r {
        Ok(x) => Ok(x),
        Err(e) => Err(e@),
    }
}

} // verus!
