use vstd::prelude::*;
use vstd::string::*;

verus! {

/// A client address as the admission layer sees it.
#[derive(Clone, Copy, Debug, PartialEq, Eq, Structural)]
pub enum IpAddress {
    V4(u8, u8, u8, u8),
    /// The eight 16-bit groups, most significant first.
    V6(u16, u16, u16, u16, u16, u16, u16, u16),
}

pub open spec fn is_ws(c: char) -> bool {
    c == ' ' || c == '\t' || c == '\n' || c == '\r' || c == '\x0b' || c == '\x0c'
}

/// The text after the last comma (the whole text where there is none).
pub open spec fn last_segment(s: Seq<char>) -> Seq<char>
    decreases s.len(),
{
    if s.len() == 0 {
        s
    } else if s.last() == ',' {
        Seq::empty()
    } else {
        last_segment(s.drop_last()).push(s.last())
    }
}

pub open spec fn trim_start(s: Seq<char>) -> Seq<char>
    decreases s.len(),
{
    if s.len() > 0 && is_ws(s[0]) {
        trim_start(s.drop_first())
    } else {
        s
    }
}

pub open spec fn trim_end(s: Seq<char>) -> Seq<char>
    decreases s.len(),
{
    if s.len() > 0 && is_ws(s.last()) {
        trim_end(s.drop_last())
    } else {
        s
    }
}

pub open spec fn trim(s: Seq<char>) -> Seq<char> {
    trim_end(trim_start(s))
}

/// The candidate address text of a forwarding header: its last
/// comma-separated element, without surrounding whitespace.
pub open spec fn header_tail(s: Seq<char>) -> Seq<char> {
    trim(last_segment(s))
}

pub open spec fn is_digit(c: char) -> bool {
    '0' <= c && c <= '9'
}

pub open spec fn digit_of(c: char) -> nat {
    (c as u32 - '0' as u32) as nat
}

pub open spec fn digits_value(t: Seq<char>) -> nat
    decreases t.len(),
{
    if t.len() == 0 {
        0
    } else {
        digits_value(t.drop_last()) * 10 + digit_of(t.last())
    }
}

/// A decimal octet: one to three digits, no leading zero, at most 255.
pub open spec fn valid_octet(t: Seq<char>) -> bool {
    &&& 1 <= t.len() <= 3
    &&& forall|i: int| 0 <= i < t.len() ==> is_digit(#[trigger] t[i])
    &&& (t.len() == 1 || t[0] != '0')
    &&& digits_value(t) <= 255
}

/// `a < b < c` are the positions of the only three dots of `s`.
pub open spec fn dots_at(s: Seq<char>, a: int, b: int, c: int) -> bool {
    &&& 0 <= a < b < c < s.len()
    &&& s[a] == '.' && s[b] == '.' && s[c] == '.'
    &&& forall|i: int| 0 <= i < s.len() && s[i] == '.' ==> i == a || i == b || i == c
}

/// The dotted-quad IPv4 address that `s` spells, if any.
pub open spec fn parse_ipv4(s: Seq<char>) -> Option<IpAddress> {
    if exists|a: int, b: int, c: int| dots_at(s, a, b, c) {
        let (a, b, c) = choose|a: int, b: int, c: int| dots_at(s, a, b, c);
        let t0 = s.subrange(0, a);
        let t1 = s.subrange(a + 1, b);
        let t2 = s.subrange(b + 1, c);
        let t3 = s.subrange(c + 1, s.len() as int);
        if valid_octet(t0) && valid_octet(t1) && valid_octet(t2) && valid_octet(t3) {
            Some(
                IpAddress::V4(
                    digits_value(t0) as u8,
                    digits_value(t1) as u8,
                    digits_value(t2) as u8,
                    digits_value(t3) as u8,
                ),
            )
        } else {
            None
        }
    } else {
        None
    }
}

pub open spec fn is_hex_digit(c: char) -> bool {
    ('0' <= c && c <= '9') || ('a' <= c && c <= 'f') || ('A' <= c && c <= 'F')
}

pub open spec fn hex_digit_of(c: char) -> nat {
    if '0' <= c && c <= '9' {
        (c as u32 - '0' as u32) as nat
    } else if 'a' <= c && c <= 'f' {
        (c as u32 - 'a' as u32 + 10) as nat
    } else {
        (c as u32 - 'A' as u32 + 10) as nat
    }
}

pub open spec fn hex_value(t: Seq<char>) -> nat
    decreases t.len(),
{
    if t.len() == 0 {
        0
    } else {
        hex_value(t.drop_last()) * 16 + hex_digit_of(t.last())
    }
}

/// A group of an IPv6 address: one to four hexadecimal digits.
pub open spec fn hex_group(t: Seq<char>) -> bool {
    &&& 1 <= t.len() <= 4
    &&& forall|i: int| 0 <= i < t.len() ==> is_hex_digit(#[trigger] t[i])
}

/// The colon-separated fields of `t` (one empty field for empty text).
pub open spec fn colon_fields(t: Seq<char>) -> Seq<Seq<char>>
    decreases t.len(),
{
    if t.len() == 0 {
        seq![Seq::empty()]
    } else if t.last() == ':' {
        colon_fields(t.drop_last()).push(Seq::empty())
    } else {
        let f = colon_fields(t.drop_last());
        f.update(f.len() - 1, f.last().push(t.last()))
    }
}

/// The 16-bit groups spelt by a colon-separated run: hexadecimal groups,
/// the last of which may instead be a dotted quad standing for two groups;
/// the flag says whether it was. Empty text spells no group.
pub open spec fn run_groups(t: Seq<char>) -> Option<(Seq<u16>, bool)> {
    if t.len() == 0 {
        Some((Seq::empty(), false))
    } else {
        let fs = colon_fields(t);
        let n = fs.len();
        let init = Seq::new((n - 1) as nat, |i: int| hex_value(fs[i]) as u16);
        if !(forall|i: int| 0 <= i < n - 1 ==> hex_group(#[trigger] fs[i])) {
            None
        } else if hex_group(fs[n - 1]) {
            Some((init.push(hex_value(fs[n - 1]) as u16), false))
        } else {
            match parse_ipv4(fs[n - 1]) {
                Some(IpAddress::V4(a, b, c, d)) => Some(
                    (init.push((a as nat * 256 + b as nat) as u16).push(
                        (c as nat * 256 + d as nat) as u16,
                    ), true),
                ),
                _ => None,
            }
        }
    }
}

pub open spec fn double_colon_at(s: Seq<char>, p: int) -> bool {
    0 <= p && p + 1 < s.len() && s[p] == ':' && s[p + 1] == ':'
}

pub open spec fn first_double_colon(s: Seq<char>, p: int) -> bool {
    double_colon_at(s, p) && forall|q: int| 0 <= q < p ==> !double_colon_at(s, q)
}

pub open spec fn v6_of(g: Seq<u16>) -> IpAddress {
    IpAddress::V6(g[0], g[1], g[2], g[3], g[4], g[5], g[6], g[7])
}

/// The IPv6 address that `s` spells, if any: eight groups, or fewer around
/// a single `::` that stands for the missing zero groups.
pub open spec fn parse_ipv6(s: Seq<char>) -> Option<IpAddress> {
    if exists|p: int| first_double_colon(s, p) {
        let p = choose|p: int| first_double_colon(s, p);
        match (run_groups(s.subrange(0, p)), run_groups(s.subrange(p + 2, s.len() as int))) {
            (Some((h, false)), Some((t, _))) => if h.len() + t.len() <= 7 {
                Some(v6_of(h + Seq::new((8 - h.len() - t.len()) as nat, |i: int| 0u16) + t))
            } else {
                None
            },
            _ => None,
        }
    } else {
        match run_groups(s) {
            Some((g, _)) => if g.len() == 8 {
                Some(v6_of(g))
            } else {
                None
            },
            None => None,
        }
    }
}

/// The IP address that `s` spells, if any.
pub open spec fn parse_ip(s: Seq<char>) -> Option<IpAddress> {
    match parse_ipv4(s) {
        Some(a) => Some(a),
        None => parse_ipv6(s),
    }
}

/// The address a request is attributed to, given the forwarding header's
/// value: the parsed tail of the header, or `fallback` where it is no address.
pub open spec fn extracted(s: Seq<char>, fallback: IpAddress) -> IpAddress {
    match parse_ip(header_tail(s)) {
        Some(a) => a,
        None => fallback,
    }
}

fn is_ws_char(c: char) -> (r: bool)
    ensures
        r == is_ws(c),
{
    c == ' ' || c == '\t' || c == '\n' || c == '\r' || c == '\x0b' || c == '\x0c'
}

/// The last comma-separated element of a header value, trimmed.
pub fn header_tail_of(s: &str) -> (r: &str)
    ensures
        r@ == header_tail(s@),
{
    let n = s.unicode_len();
    let mut start: usize = 0;
    let mut i: usize = 0;
    while i < n
        invariant
            n == s@.len(),
            start <= i <= n,
            last_segment(s@.subrange(0, i as int)) == s@.subrange(start as int, i as int),
        decreases n - i,
    {
        let c = s.get_char(i);
        proof {
            let p = s@.subrange(0, i as int + 1);
            assert(p.drop_last() =~= s@.subrange(0, i as int));
            assert(p.last() == c);
            if c != ',' {
                assert(s@.subrange(start as int, i as int).push(c) =~= s@.subrange(
                    start as int,
                    i as int + 1,
                ));
            } else {
                assert(s@.subrange(i as int + 1, i as int + 1) =~= Seq::<char>::empty());
            }
        }
        if c == ',' {
            start = i + 1;
        }
        i = i + 1;
    }
    assert(s@.subrange(0, n as int) =~= s@);
    let mut a: usize = start;
    while a < n && is_ws_char(s.get_char(a))
        invariant
            n == s@.len(),
            start <= a <= n,
            trim_start(s@.subrange(start as int, n as int)) == trim_start(
                s@.subrange(a as int, n as int),
            ),
        decreases n - a,
    {
        assert(s@.subrange(a as int, n as int).drop_first() =~= s@.subrange(
            a as int + 1,
            n as int,
        ));
        a = a + 1;
    }
    let mut b: usize = n;
    while b > a && is_ws_char(s.get_char(b - 1))
        invariant
            n == s@.len(),
            a <= b <= n,
            trim_start(s@.subrange(start as int, n as int)) == s@.subrange(a as int, n as int),
            trim_end(s@.subrange(a as int, n as int)) == trim_end(
                s@.subrange(a as int, b as int),
            ),
        decreases b,
    {
        assert(s@.subrange(a as int, b as int).drop_last() =~= s@.subrange(
            a as int,
            b as int - 1,
        ));
        b = b - 1;
    }
    s.substring_char(a, b)
}

/// The value of the decimal octet spelt by `s[from..to]`, if it is one.
fn parse_octet(s: &str, from: usize, to: usize) -> (r: Option<u8>)
    requires
        from <= to <= s@.len(),
    ensures
        r == (if valid_octet(s@.subrange(from as int, to as int)) {
            Some(digits_value(s@.subrange(from as int, to as int)) as u8)
        } else {
            None::<u8>
        }),
{
    let ghost t = s@.subrange(from as int, to as int);
    if to - from < 1 || to - from > 3 {
        return None;
    }
    let first = s.get_char(from);
    if to - from > 1 && first == '0' {
        assert(t[0] == first);
        return None;
    }
    let mut v: u32 = 0;
    let mut j: usize = from;
    while j < to
        invariant
            from <= j <= to <= s@.len(),
            to - from <= 3,
            t == s@.subrange(from as int, to as int),
            forall|i: int| 0 <= i < j - from ==> is_digit(#[trigger] t[i]),
            v as nat == digits_value(s@.subrange(from as int, j as int)),
            j - from == 0 ==> v == 0,
            j - from <= 1 ==> v <= 9,
            j - from <= 2 ==> v <= 99,
            v <= 999,
        decreases to - j,
    {
        let c = s.get_char(j);
        if !('0' <= c && c <= '9') {
            assert(t[j - from] == c);
            return None;
        }
        proof {
            assert(s@.subrange(from as int, j as int + 1).drop_last() =~= s@.subrange(
                from as int,
                j as int,
            ));
        }
        v = v * 10 + (c as u32 - '0' as u32);
        j = j + 1;
    }
    assert(s@.subrange(from as int, to as int) =~= t);
    if v > 255 {
        return None;
    }
    Some(v as u8)
}

/// Parses a dotted-quad IPv4 address.
pub fn parse_ipv4_addr(s: &str) -> (r: Option<IpAddress>)
    ensures
        r == parse_ipv4(s@),
{
    let n = s.unicode_len();
    let mut count: usize = 0;
    let mut d1: usize = 0;
    let mut d2: usize = 0;
    let mut d3: usize = 0;
    let mut i: usize = 0;
    while i < n
        invariant
            n == s@.len(),
            i <= n,
            count <= 3,
            count >= 1 ==> d1 < i && s@[d1 as int] == '.',
            count >= 2 ==> d1 < d2 < i && s@[d2 as int] == '.',
            count >= 3 ==> d2 < d3 < i && s@[d3 as int] == '.',
            forall|j: int|
                0 <= j < i && s@[j] == '.' ==> (count >= 1 && j == d1) || (count >= 2 && j
                    == d2) || (count >= 3 && j == d3),
        decreases n - i,
    {
        if s.get_char(i) == '.' {
            if count == 3 {
                assert(!exists|a: int, b: int, c: int| dots_at(s@, a, b, c)) by {
                    assert forall|a: int, b: int, c: int| !dots_at(s@, a, b, c) by {
                        if dots_at(s@, a, b, c) {
                            assert(s@[d1 as int] == '.');
                            assert(s@[i as int] == '.');
                        }
                    }
                }
                return None;
            }
            if count == 0 {
                d1 = i;
            } else if count == 1 {
                d2 = i;
            } else {
                d3 = i;
            }
            count = count + 1;
        }
        i = i + 1;
    }
    if count < 3 {
        assert(!exists|a: int, b: int, c: int| dots_at(s@, a, b, c)) by {
            assert forall|a: int, b: int, c: int| !dots_at(s@, a, b, c) by {
                if dots_at(s@, a, b, c) {
                    assert(s@[a] == '.' && s@[b] == '.' && s@[c] == '.');
                }
            }
        }
        return None;
    }
    assert(dots_at(s@, d1 as int, d2 as int, d3 as int));
    proof {
        let (a, b, c) = choose|a: int, b: int, c: int| dots_at(s@, a, b, c);
        assert(dots_at(s@, a, b, c));
        assert(s@[a] == '.' && s@[b] == '.' && s@[c] == '.');
        assert(a == d1 && b == d2 && c == d3);
    }
    let o0 = parse_octet(s, 0, d1);
    let o1 = parse_octet(s, d1 + 1, d2);
    let o2 = parse_octet(s, d2 + 1, d3);
    let o3 = parse_octet(s, d3 + 1, n);
    match (o0, o1, o2, o3) {
        (Some(a), Some(b), Some(c), Some(d)) => Some(IpAddress::V4(a, b, c, d)),
        _ => None,
    }
}

fn hex_digit(c: char) -> (r: Option<u32>)
    ensures
        r == (if is_hex_digit(c) {
            Some(hex_digit_of(c) as u32)
        } else {
            None::<u32>
        }),
{
    if '0' <= c && c <= '9' {
        Some(c as u32 - '0' as u32)
    } else if 'a' <= c && c <= 'f' {
        Some(c as u32 - 'a' as u32 + 10)
    } else if 'A' <= c && c <= 'F' {
        Some(c as u32 - 'A' as u32 + 10)
    } else {
        None
    }
}

/// The value of the hexadecimal group spelt by `s[from..to]`, if it is one.
fn parse_hex_group(s: &str, from: usize, to: usize) -> (r: Option<u16>)
    requires
        from <= to <= s@.len(),
    ensures
        r == (if hex_group(s@.subrange(from as int, to as int)) {
            Some(hex_value(s@.subrange(from as int, to as int)) as u16)
        } else {
            None::<u16>
        }),
{
    let ghost t = s@.subrange(from as int, to as int);
    if to - from < 1 || to - from > 4 {
        return None;
    }
    let mut v: u32 = 0;
    let mut j: usize = from;
    while j < to
        invariant
            from <= j <= to <= s@.len(),
            to - from <= 4,
            t == s@.subrange(from as int, to as int),
            forall|i: int| 0 <= i < j - from ==> is_hex_digit(#[trigger] t[i]),
            v as nat == hex_value(s@.subrange(from as int, j as int)),
            j - from == 0 ==> v == 0,
            j - from <= 1 ==> v <= 15,
            j - from <= 2 ==> v <= 255,
            j - from <= 3 ==> v <= 4095,
            v <= 65535,
        decreases to - j,
    {
        let c = s.get_char(j);
        let d = match hex_digit(c) {
            Some(d) => d,
            None => {
                assert(t[j - from] == c);
                return None;
            },
        };
        proof {
            assert(s@.subrange(from as int, j as int + 1).drop_last() =~= s@.subrange(
                from as int,
                j as int,
            ));
        }
        v = v * 16 + d;
        j = j + 1;
    }
    assert(s@.subrange(from as int, to as int) =~= t);
    Some(v as u16)
}

/// The groups spelt by the colon-separated run `s[from..to]`.
fn parse_run(s: &str, from: usize, to: usize) -> (r: Option<(Vec<u16>, bool)>)
    requires
        from <= to <= s@.len(),
    ensures
        match run_groups(s@.subrange(from as int, to as int)) {
            Some((g, b)) => r matches Some((v, c)) && v@ == g && c == b,
            None => r is None,
        },
{
    let ghost t = s@.subrange(from as int, to as int);
    if from == to {
        return Some((Vec::new(), false));
    }
    let mut groups: Vec<u16> = Vec::new();
    let mut bad = false;
    let ghost mut done: Seq<Seq<char>> = Seq::empty();
    let mut start: usize = from;
    let mut j: usize = from;
    assert(s@.subrange(from as int, from as int) =~= Seq::<char>::empty());
    assert(Seq::<Seq<char>>::empty().push(Seq::<char>::empty()) =~= seq![Seq::<char>::empty()]);
    while j < to
        invariant
            from <= start <= j <= to <= s@.len(),
            colon_fields(s@.subrange(from as int, j as int)) == done.push(
                s@.subrange(start as int, j as int),
            ),
            !bad ==> forall|i: int| 0 <= i < done.len() ==> hex_group(#[trigger] done[i]),
            !bad ==> groups@ == Seq::new(done.len(), |i: int| hex_value(done[i]) as u16),
            bad ==> exists|i: int| 0 <= i < done.len() && !hex_group(#[trigger] done[i]),
        decreases to - j,
    {
        let c = s.get_char(j);
        let ghost prev = s@.subrange(from as int, j as int);
        let ghost next = s@.subrange(from as int, j as int + 1);
        assert(next.drop_last() =~= prev);
        assert(next.last() == c);
        if c == ':' {
            let ghost field = s@.subrange(start as int, j as int);
            if !bad {
                match parse_hex_group(s, start, j) {
                    Some(v) => {
                        groups.push(v);
                    },
                    None => {
                        bad = true;
                    },
                }
            }
            proof {
                let d2 = done.push(field);
                if !bad {
                    assert(groups@ =~= Seq::new(d2.len(), |i: int| hex_value(d2[i]) as u16));
                } else {
                    if !hex_group(field) {
                        assert(!hex_group(d2[done.len() as int]));
                    } else {
                        let i = choose|i: int| 0 <= i < done.len() && !hex_group(#[trigger] done[i]);
                        assert(!hex_group(d2[i]));
                    }
                }
                done = d2;
                assert(s@.subrange(j as int + 1, j as int + 1) =~= Seq::<char>::empty());
            }
            start = j + 1;
        } else {
            assert(s@.subrange(start as int, j as int).push(c) =~= s@.subrange(
                start as int,
                j as int + 1,
            ));
            assert(done.push(s@.subrange(start as int, j as int)).update(
                done.len() as int,
                s@.subrange(start as int, j as int + 1),
            ) =~= done.push(s@.subrange(start as int, j as int + 1)));
        }
        j = j + 1;
    }
    let ghost fs = done.push(s@.subrange(start as int, to as int));
    assert(colon_fields(t) == fs);
    if bad {
        proof {
            let i = choose|i: int| 0 <= i < done.len() && !hex_group(#[trigger] done[i]);
            assert(!hex_group(fs[i]));
        }
        return None;
    }
    assert(forall|i: int| 0 <= i < fs.len() - 1 ==> #[trigger] fs[i] == done[i]);
    assert(groups@ =~= Seq::new((fs.len() - 1) as nat, |i: int| hex_value(fs[i]) as u16));
    match parse_hex_group(s, start, to) {
        Some(v) => {
            groups.push(v);
            Some((groups, false))
        },
        None => {
            let last = s.substring_char(start, to);
            match parse_ipv4_addr(last) {
                Some(IpAddress::V4(a, b, c, d)) => {
                    groups.push(a as u16 * 256 + b as u16);
                    groups.push(c as u16 * 256 + d as u16);
                    Some((groups, true))
                },
                _ => None,
            }
        },
    }
}

/// Parses an IPv6 address.
pub fn parse_ipv6_addr(s: &str) -> (r: Option<IpAddress>)
    ensures
        r == parse_ipv6(s@),
{
    let n = s.unicode_len();
    let mut i: usize = 0;
    while n >= 2 && i <= n - 2 && !(s.get_char(i) == ':' && s.get_char(i + 1) == ':')
        invariant
            n == s@.len(),
            i <= n,
            forall|q: int| 0 <= q < i ==> !double_colon_at(s@, q),
        decreases n - i,
    {
        i = i + 1;
    }
    if n >= 2 && i <= n - 2 {
        proof {
            assert(first_double_colon(s@, i as int));
            let p = choose|p: int| first_double_colon(s@, p);
            assert(first_double_colon(s@, p));
            if p < i {
                assert(!double_colon_at(s@, p));
            }
            if p > i {
                assert(!double_colon_at(s@, i as int));
            }
            assert(p == i);
        }
        let head = parse_run(s, 0, i);
        let tail = parse_run(s, i + 2, n);
        match (head, tail) {
            (Some((mut h, false)), Some((mut t, _))) => {
                if h.len() > 7 || t.len() > 7 - h.len() {
                    return None;
                }
                let ghost h0 = h@;
                let ghost t0 = t@;
                let zeros: usize = 8 - h.len() - t.len();
                let mut k: usize = 0;
                while k < zeros
                    invariant
                        k <= zeros,
                        h@ == h0 + Seq::new(k as nat, |i: int| 0u16),
                    decreases zeros - k,
                {
                    h.push(0);
                    proof {
                        assert(h@ =~= h0 + Seq::new(k as nat + 1, |i: int| 0u16));
                    }
                    k = k + 1;
                }
                h.append(&mut t);
                assert(h@ =~= h0 + Seq::new(zeros as nat, |i: int| 0u16) + t0);
                Some(IpAddress::V6(h[0], h[1], h[2], h[3], h[4], h[5], h[6], h[7]))
            },
            _ => None,
        }
    } else {
        assert(!exists|p: int| first_double_colon(s@, p));
        assert(s@.subrange(0, n as int) =~= s@);
        match parse_run(s, 0, n) {
            Some((g, _)) => {
                if g.len() == 8 {
                    Some(IpAddress::V6(g[0], g[1], g[2], g[3], g[4], g[5], g[6], g[7]))
                } else {
                    None
                }
            },
            None => None,
        }
    }
}

/// Parses an IPv4 or an IPv6 address.
pub fn parse_ip_addr(s: &str) -> (r: Option<IpAddress>)
    ensures
        r == parse_ip(s@),
{
    match parse_ipv4_addr(s) {
        Some(a) => Some(a),
        None => parse_ipv6_addr(s),
    }
}

/// The address a request is attributed to: the last element of the
/// forwarding header's value where it is an address, else `fallback`.
pub fn extract_addr(header: &str, fallback: IpAddress) -> (r: IpAddress)
    ensures
        r == extracted(header@, fallback),
{
    let tail = header_tail_of(header);
    match parse_ip_addr(tail) {
        Some(a) => a,
        None => fallback,
    }
}

pub open spec fn no_comma(s: Seq<char>) -> bool {
    forall|i: int| 0 <= i < s.len() ==> s[i] != ','
}

proof fn lemma_last_segment_no_comma(s: Seq<char>)
    ensures
        no_comma(last_segment(s)),
        no_comma(s) ==> last_segment(s) == s,
    decreases s.len(),
{
    if s.len() > 0 && s.last() != ',' {
        lemma_last_segment_no_comma(s.drop_last());
        let l = last_segment(s.drop_last());
        assert(forall|i: int| 0 <= i < l.len() ==> l.push(s.last())[i] == l[i]);
        if no_comma(s) {
            assert(no_comma(s.drop_last()));
            assert(s.drop_last().push(s.last()) =~= s);
        }
    }
}

proof fn lemma_trim_start(s: Seq<char>)
    ensures
        no_comma(s) ==> no_comma(trim_start(s)),
        trim_start(s).len() == 0 || !is_ws(trim_start(s)[0]),
        trim_start(s).len() > 0 ==> trim_start(s).last() == s.last(),
    decreases s.len(),
{
    if s.len() > 0 && is_ws(s[0]) {
        lemma_trim_start(s.drop_first());
    }
}

proof fn lemma_trim_end(s: Seq<char>)
    ensures
        no_comma(s) ==> no_comma(trim_end(s)),
        trim_end(s).len() == 0 || !is_ws(trim_end(s).last()),
        trim_end(s).len() > 0 ==> trim_end(s)[0] == s[0],
    decreases s.len(),
{
    if s.len() > 0 && is_ws(s.last()) {
        lemma_trim_end(s.drop_last());
    }
}

/// Taking the tail of a header value that holds a single element changes
/// nothing more: the tail of the tail is the tail.
pub proof fn lemma_header_tail_idempotent(s: Seq<char>)
    ensures
        header_tail(header_tail(s)) == header_tail(s),
{
    let l = last_segment(s);
    lemma_last_segment_no_comma(s);
    lemma_trim_start(l);
    let ts = trim_start(l);
    lemma_trim_end(ts);
    let t = trim_end(ts);
    lemma_last_segment_no_comma(t);
    assert(last_segment(t) == t);
    if t.len() > 0 {
        lemma_trim_start(ts);
        assert(!is_ws(t[0]));
        assert(trim_start(t) == t);
        assert(trim_end(t) == t);
    } else {
        assert(trim_start(t) == t);
        assert(trim_end(t) == t);
    }
}

/// Extraction is idempotent: the tail of a header value, extracted again,
/// gives the same address.
pub proof fn lemma_extract_idempotent(s: Seq<char>, fallback: IpAddress)
    ensures
        extracted(header_tail(s), fallback) == extracted(s, fallback),
{
    lemma_header_tail_idempotent(s);
}

} // verus!
