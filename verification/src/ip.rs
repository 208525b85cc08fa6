//! Textual IP addresses.
use crate::number;
use crate::path;
use crate::text;
use vstd::prelude::*;
use vstd::string::*;

verus! {

/// An IP address: four octets, or eight 16-bit groups.
#[derive(Debug)]
pub enum IpAddress {
    V4(Vec<u8>),
    V6(Vec<u16>),
}

#[verifier::ext_equal]
pub enum IpAddressView {
    V4(Seq<u8>),
    V6(Seq<u16>),
}

impl View for IpAddress {
    type V = IpAddressView;

    open spec fn view(&self) -> IpAddressView {
        match self {
            IpAddress::V4(o) => IpAddressView::V4(o@),
            IpAddress::V6(g) => IpAddressView::V6(g@),
        }
    }
}

/// The octet that `s` is the shortest decimal numeral of.
pub open spec fn octet(s: Seq<char>) -> Option<u8> {
    if 1 <= s.len() <= 3 && number::all_digits(s) && number::decimal_value(s) <= 255 && (s[0] != '0'
        || s.len() == 1) {
        Some(number::decimal_value(s) as u8)
    } else {
        None
    }
}

/// The octets that all of `pieces` stand for, in order.
pub open spec fn octets(pieces: Seq<Seq<char>>) -> Option<Seq<u8>>
    decreases pieces.len(),
{
    if pieces.len() == 0 {
        Some(Seq::empty())
    } else {
        match (octets(pieces.drop_last()), octet(pieces.last())) {
            (Some(before), Some(o)) => Some(before.push(o)),
            _ => None,
        }
    }
}

/// Four octets with a dot between neighbours.
pub open spec fn ipv4(s: Seq<char>) -> Option<Seq<u8>> {
    if text::split(s, '.').len() == 4 {
        octets(text::split(s, '.'))
    } else {
        None
    }
}

pub open spec fn is_hex(c: char) -> bool {
    ('0' <= c && c <= '9') || ('a' <= c && c <= 'f') || ('A' <= c && c <= 'F')
}

pub open spec fn hex_digit(c: char) -> int {
    if '0' <= c && c <= '9' {
        c as int - '0' as int
    } else if 'a' <= c && c <= 'f' {
        c as int - 'a' as int + 10
    } else {
        c as int - 'A' as int + 10
    }
}

pub open spec fn hex_value(s: Seq<char>) -> int
    decreases s.len(),
{
    if s.len() == 0 {
        0
    } else {
        hex_value(s.drop_last()) * 16 + hex_digit(s.last())
    }
}

/// The group that one to four hexadecimal digits stand for.
pub open spec fn group(s: Seq<char>) -> Option<u16> {
    if 1 <= s.len() <= 4 && (forall|i: int| 0 <= i < s.len() ==> is_hex(#[trigger] s[i])) {
        Some(hex_value(s) as u16)
    } else {
        None
    }
}

/// The groups that all of `pieces` stand for, in order.
pub open spec fn groups(pieces: Seq<Seq<char>>) -> Option<Seq<u16>>
    decreases pieces.len(),
{
    if pieces.len() == 0 {
        Some(Seq::empty())
    } else {
        match (groups(pieces.drop_last()), group(pieces.last())) {
            (Some(before), Some(g)) => Some(before.push(g)),
            _ => None,
        }
    }
}

/// Two octets as one group.
pub open spec fn pair(a: u8, b: u8) -> u16 {
    (a * 256 + b) as u16
}

/// Groups of which the last two may be written as an IPv4 address.
pub open spec fn mixed_groups(pieces: Seq<Seq<char>>) -> Option<Seq<u16>> {
    if pieces.len() > 0 && ipv4(pieces.last()) is Some {
        let o = ipv4(pieces.last())->0;
        match groups(pieces.drop_last()) {
            Some(before) => Some(before.push(pair(o[0], o[1])).push(pair(o[2], o[3]))),
            None => None,
        }
    } else {
        groups(pieces)
    }
}

/// The pieces between colons; none in an empty string.
pub open spec fn colon_pieces(s: Seq<char>) -> Seq<Seq<char>> {
    if s.len() == 0 {
        Seq::empty()
    } else {
        text::split(s, ':')
    }
}

/// Where two colons in a row occur first; the length of `s` if they do not.
pub open spec fn gap_index(s: Seq<char>) -> int
    decreases s.len(),
{
    if s.len() < 2 {
        s.len() as int
    } else if s[0] == ':' && s[1] == ':' {
        0
    } else {
        1 + gap_index(s.subrange(1, s.len() as int))
    }
}

pub open spec fn zeros(n: int) -> Seq<u16> {
    Seq::new(n as nat, |i: int| 0u16)
}

/// Eight groups; one run of zero groups may be left out between two colons.
pub open spec fn ipv6(s: Seq<char>) -> Option<Seq<u16>> {
    let k = gap_index(s);
    if k < s.len() {
        match (
            groups(colon_pieces(s.subrange(0, k))),
            mixed_groups(colon_pieces(s.subrange(k + 2, s.len() as int))),
        ) {
            (Some(head), Some(tail)) => if head.len() + tail.len() <= 7 {
                Some(head + zeros(8 - head.len() - tail.len()) + tail)
            } else {
                None
            },
            _ => None,
        }
    } else {
        match mixed_groups(text::split(s, ':')) {
            Some(g) => if g.len() == 8 {
                Some(g)
            } else {
                None
            },
            None => None,
        }
    }
}

/// The address that `s` is written form of.
pub open spec fn address(s: Seq<char>) -> Option<IpAddressView> {
    match ipv4(s) {
        Some(o) => Some(IpAddressView::V4(o)),
        None => match ipv6(s) {
            Some(g) => Some(IpAddressView::V6(g)),
            None => None,
        },
    }
}

impl IpAddressView {
    pub open spec fn well_formed(self) -> bool {
        match self {
            IpAddressView::V4(o) => o.len() == 4,
            IpAddressView::V6(g) => g.len() == 8,
        }
    }
}

/// The groups of an IPv4 address that is carried in an IPv6 address.
pub open spec fn carries_ipv4(g: Seq<u16>) -> bool {
    g.take(5) == zeros(5) && g[5] == 0xffff
}

/// 169.254.0.0/16, fe80::/10, and the former carried in an IPv6 address.
pub open spec fn link_local(ip: IpAddressView) -> bool {
    match ip {
        IpAddressView::V4(o) => o[0] == 169 && o[1] == 254,
        IpAddressView::V6(g) => 0xfe80 <= g[0] <= 0xfebf || (carries_ipv4(g) && g[6] == pair(
            169,
            254,
        )),
    }
}

/// Four decimal octets with dots between them.
pub open spec fn dotted(a: int, b: int, c: int, d: int) -> Seq<char> {
    number::decimal(a as nat) + "."@ + number::decimal(b as nat) + "."@ + number::decimal(c as nat)
        + "."@ + number::decimal(d as nat)
}

/// Hexadecimal groups with colons between them.
pub open spec fn coloned(g: Seq<u16>) -> Seq<char>
    decreases g.len(),
{
    if g.len() == 0 {
        Seq::empty()
    } else if g.len() == 1 {
        number::hexadecimal(g[0] as nat)
    } else {
        coloned(g.drop_last()).push(':') + number::hexadecimal(g.last() as nat)
    }
}

/// How many zero groups in a row end in front of index `i`.
pub open spec fn zero_run(g: Seq<u16>, i: int) -> int
    decreases i,
{
    if 0 < i <= g.len() && g[i - 1] == 0 {
        1 + zero_run(g, i - 1)
    } else {
        0
    }
}

/// Start and length of the longest run of zero groups in front of index `i`,
/// the leftmost of those of equal length.
pub open spec fn longest_run(g: Seq<u16>, i: int) -> (int, int)
    decreases i,
{
    if i <= 0 {
        (0, 0)
    } else if zero_run(g, i) > longest_run(g, i - 1).1 {
        (i - zero_run(g, i), zero_run(g, i))
    } else {
        longest_run(g, i - 1)
    }
}

/// The usual written form of an address.
pub open spec fn address_text(ip: IpAddressView) -> Seq<char> {
    match ip {
        IpAddressView::V4(o) => dotted(o[0] as int, o[1] as int, o[2] as int, o[3] as int),
        IpAddressView::V6(g) => if carries_ipv4(g) {
            "::ffff:"@ + dotted(
                g[6] as int / 256,
                g[6] as int % 256,
                g[7] as int / 256,
                g[7] as int % 256,
            )
        } else {
            let (start, len) = longest_run(g, 8);
            if len > 1 {
                coloned(g.take(start)) + "::"@ + coloned(g.subrange(start + len, 8))
            } else {
                coloned(g)
            }
        },
    }
}

fn parse_octet(s: &str) -> (r: Option<u8>)
    ensures
        r == octet(s@),
{
    let v = text::chars_of(s);
    if v.len() < 1 || v.len() > 3 {
        return None;
    }
    if v[0] == '0' && v.len() > 1 {
        return None;
    }
    match number::parse_u16(s) {
        Some(n) => {
            if v[0] == '+' {
                assert(!number::is_digit(s@[0]));
                return None;
            }
            assert(number::unsigned_part(s@) == s@);
            if n <= 255 {
                Some(n as u8)
            } else {
                None
            }
        },
        None => {
            proof {
                if number::all_digits(s@) {
                    assert(number::is_digit(s@[0]));
                    assert(number::unsigned_part(s@) == s@);
                }
            }
            None
        },
    }
}

fn parse_ipv4(s: &str) -> (r: Option<Vec<u8>>)
    ensures
        match r {
            Some(o) => ipv4(s@) == Some(o@) && o@.len() == 4,
            None => ipv4(s@) is None,
        },
{
    let pieces = text::split_on(s, '.');
    let ghost m = text::split(s@, '.');
    if pieces.len() != 4 {
        return None;
    }
    let mut o: Vec<u8> = Vec::new();
    let mut i: usize = 0;
    assert(m.take(0) =~= Seq::<Seq<char>>::empty());
    assert(o@ =~= Seq::<u8>::empty());
    while i < 4
        invariant
            m == pieces.deep_view(),
            m == text::split(s@, '.'),
            m.len() == 4,
            i <= 4,
            o@.len() == i,
            octets(m.take(i as int)) == Some(o@),
        decreases 4 - i,
    {
        assert(m[i as int] == pieces@[i as int]@);
        assert(m.take(i + 1).drop_last() =~= m.take(i as int));
        match parse_octet(pieces[i].as_str()) {
            Some(x) => {
                o.push(x);
            },
            None => {
                proof {
                    octets_prefix(m, i + 1);
                }
                return None;
            },
        }
        i += 1;
    }
    assert(m.take(4) =~= m);
    Some(o)
}

proof fn octets_prefix(m: Seq<Seq<char>>, n: int)
    requires
        0 <= n <= m.len(),
        octets(m.take(n)) is None,
    ensures
        octets(m) is None,
    decreases m.len() - n,
{
    if n < m.len() {
        assert(m.take(n + 1).drop_last() =~= m.take(n));
        octets_prefix(m, n + 1);
    } else {
        assert(m.take(n) =~= m);
    }
}

proof fn groups_prefix(m: Seq<Seq<char>>, n: int)
    requires
        0 <= n <= m.len(),
        groups(m.take(n)) is None,
    ensures
        groups(m) is None,
    decreases m.len() - n,
{
    if n < m.len() {
        assert(m.take(n + 1).drop_last() =~= m.take(n));
        groups_prefix(m, n + 1);
    } else {
        assert(m.take(n) =~= m);
    }
}

fn parse_group(s: &str) -> (r: Option<u16>)
    ensures
        r == group(s@),
{
    let v = text::chars_of(s);
    if v.len() < 1 || v.len() > 4 {
        return None;
    }
    let mut n: u32 = 0;
    let mut i: usize = 0;
    let ghost mut bound: int = 1;
    assert(s@.take(0) =~= Seq::<char>::empty());
    while i < v.len()
        invariant
            v@ == s@,
            i <= v.len() <= 4,
            bound == (if i == 0 { 1int } else if i == 1 { 16 } else if i == 2 { 256 } else if i == 3 {
                4096
            } else { 65536 }),
            n == hex_value(s@.take(i as int)),
            n < bound,
            forall|k: int| 0 <= k < i ==> is_hex(#[trigger] s@[k]),
        decreases v.len() - i,
    {
        let c = v[i];
        assert(s@.take(i + 1).drop_last() =~= s@.take(i as int));
        let d: u32 = if '0' <= c && c <= '9' {
            c as u32 - '0' as u32
        } else if 'a' <= c && c <= 'f' {
            c as u32 - 'a' as u32 + 10
        } else if 'A' <= c && c <= 'F' {
            c as u32 - 'A' as u32 + 10
        } else {
            assert(!is_hex(s@[i as int]));
            return None;
        };
        n = n * 16 + d;
        i += 1;
        proof {
            bound = bound * 16;
        }
    }
    assert(s@.take(s@.len() as int) =~= s@);
    Some(n as u16)
}

/// The groups of the pieces `0..n`.
fn parse_groups(pieces: &Vec<String>, n: usize) -> (r: Option<Vec<u16>>)
    requires
        n <= pieces.len(),
    ensures
        match r {
            Some(g) => groups(pieces.deep_view().take(n as int)) == Some(g@) && g@.len() == n,
            None => groups(pieces.deep_view().take(n as int)) is None,
        },
{
    let ghost m = pieces.deep_view();
    let mut g: Vec<u16> = Vec::new();
    let mut i: usize = 0;
    assert(m.take(0) =~= Seq::<Seq<char>>::empty());
    assert(g@ =~= Seq::<u16>::empty());
    while i < n
        invariant
            m == pieces.deep_view(),
            i <= n <= pieces.len(),
            g@.len() == i,
            groups(m.take(i as int)) == Some(g@),
        decreases n - i,
    {
        assert(m[i as int] == pieces@[i as int]@);
        assert(m.take(i + 1).drop_last() =~= m.take(i as int));
        match parse_group(pieces[i].as_str()) {
            Some(x) => {
                g.push(x);
            },
            None => {
                proof {
                    assert(m.take(n as int).take(i + 1) =~= m.take(i + 1));
                    groups_prefix(m.take(n as int), i + 1);
                }
                return None;
            },
        }
        i += 1;
    }
    Some(g)
}

fn parse_mixed(pieces: &Vec<String>) -> (r: Option<Vec<u16>>)
    ensures
        match r {
            Some(g) => mixed_groups(pieces.deep_view()) == Some(g@) && g@.len() <= pieces.len() + 1,
            None => mixed_groups(pieces.deep_view()) is None,
        },
{
    let ghost m = pieces.deep_view();
    let n: usize = pieces.len();
    assert(m.take(n as int) =~= m);
    if n > 0 {
        assert(m.last() == pieces@[n - 1]@);
        if let Some(o) = parse_ipv4(pieces[n - 1].as_str()) {
            assert(m.take(n - 1) =~= m.drop_last());
            return match parse_groups(pieces, n - 1) {
                Some(before) => {
                    let mut g = before;
                    g.push(o[0] as u16 * 256 + o[1] as u16);
                    g.push(o[2] as u16 * 256 + o[3] as u16);
                    Some(g)
                },
                None => None,
            };
        }
    }
    parse_groups(pieces, n)
}

fn find_gap(s: &str) -> (r: Option<usize>)
    ensures
        match r {
            Some(k) => k == gap_index(s@) && k + 2 <= s@.len(),
            None => gap_index(s@) == s@.len(),
        },
{
    let v = text::chars_of(s);
    let mut i: usize = 0;
    assert(s@.subrange(0, s@.len() as int) =~= s@);
    while i < v.len() && 1 < v.len() - i
        invariant
            v@ == s@,
            i <= v.len(),
            gap_index(s@) == i + gap_index(s@.subrange(i as int, s@.len() as int)),
        decreases v.len() - i,
    {
        if v[i] == ':' && v[i + 1] == ':' {
            return Some(i);
        }
        assert(s@.subrange(i as int, s@.len() as int).subrange(1, s@.len() - i) =~= s@.subrange(
            i + 1,
            s@.len() as int,
        ));
        i += 1;
    }
    None
}

fn split_colons(s: &str) -> (r: Vec<String>)
    ensures
        r.deep_view() == colon_pieces(s@),
{
    if s.is_empty() {
        let r: Vec<String> = Vec::new();
        assert(r.deep_view() =~= Seq::<Seq<char>>::empty());
        r
    } else {
        text::split_on(s, ':')
    }
}

fn parse_ipv6(s: &str) -> (r: Option<Vec<u16>>)
    ensures
        match r {
            Some(g) => ipv6(s@) == Some(g@) && g@.len() == 8,
            None => ipv6(s@) is None,
        },
{
    match find_gap(s) {
        Some(k) => {
            let n: usize = s.unicode_len();
            let front = split_colons(s.substring_char(0, k));
            let back = split_colons(s.substring_char(k + 2, n));
            assert(front.deep_view().take(front.len() as int) =~= front.deep_view());
            let head = match parse_groups(&front, front.len()) {
                Some(g) => g,
                None => return None,
            };
            let mut tail = match parse_mixed(&back) {
                Some(g) => g,
                None => return None,
            };
            if head.len() > 7 || tail.len() > 7 - head.len() {
                return None;
            }
            let fill: usize = 8 - head.len() - tail.len();
            let ghost h = head@;
            let ghost t = tail@;
            let mut g = head;
            let mut i: usize = 0;
            while i < fill
                invariant
                    i <= fill,
                    g@ == h + zeros(i as int),
                decreases fill - i,
            {
                g.push(0);
                i += 1;
                assert(g@ =~= h + zeros(i as int));
            }
            g.append(&mut tail);
            Some(g)
        },
        None => {
            let pieces = text::split_on(s, ':');
            match parse_mixed(&pieces) {
                Some(g) => if g.len() == 8 {
                    Some(g)
                } else {
                    None
                },
                None => None,
            }
        },
    }
}

/// The address that `s` is a written form of.
pub fn parse(s: &str) -> (r: Option<IpAddress>)
    ensures
        match r {
            Some(ip) => address(s@) == Some(ip@) && ip@.well_formed(),
            None => address(s@) is None,
        },
{
    match parse_ipv4(s) {
        Some(o) => Some(IpAddress::V4(o)),
        None => match parse_ipv6(s) {
            Some(g) => Some(IpAddress::V6(g)),
            None => None,
        },
    }
}

fn is_ipv4_carrier(g: &Vec<u16>) -> (r: bool)
    requires
        g@.len() == 8,
    ensures
        r == carries_ipv4(g@),
{
    let r = g[0] == 0 && g[1] == 0 && g[2] == 0 && g[3] == 0 && g[4] == 0 && g[5] == 0xffff;
    proof {
        if r {
            assert(g@.take(5) =~= zeros(5));
        } else if carries_ipv4(g@) {
            assert(g@.take(5)[0] == 0 && g@.take(5)[1] == 0 && g@.take(5)[2] == 0 && g@.take(5)[3]
                == 0 && g@.take(5)[4] == 0);
        }
    }
    r
}

impl IpAddress {
    /// Whether the address is link-local.
    pub fn is_link_local(&self) -> (r: bool)
        requires
            self@.well_formed(),
        ensures
            r == link_local(self@),
    {
        match self {
            IpAddress::V4(o) => o[0] == 169 && o[1] == 254,
            IpAddress::V6(g) => (0xfe80 <= g[0] && g[0] <= 0xfebf) || (is_ipv4_carrier(g) && g[6]
                == 169 * 256 + 254),
        }
    }

    /// The usual written form of the address.
    pub fn to_text(&self) -> (r: String)
        requires
            self@.well_formed(),
        ensures
            r@ == address_text(self@),
    {
        match self {
            IpAddress::V4(o) => dotted_text(o[0], o[1], o[2], o[3]),
            IpAddress::V6(g) => {
                if is_ipv4_carrier(g) {
                    let mut s = "::ffff:".to_owned();
                    s.append(
                        dotted_text(
                            (g[6] / 256) as u8,
                            (g[6] % 256) as u8,
                            (g[7] / 256) as u8,
                            (g[7] % 256) as u8,
                        ).as_str(),
                    );
                    return s;
                }
                let (start, len) = find_longest_run(g);
                if len > 1 {
                    let mut s = coloned_text(g, 0, start);
                    s.append("::");
                    s.append(coloned_text(g, start + len, 8).as_str());
                    assert(g@.subrange(0, start as int) =~= g@.take(start as int));
                    s
                } else {
                    assert(g@.subrange(0, 8) =~= g@);
                    coloned_text(g, 0, 8)
                }
            },
        }
    }
}

fn dotted_text(a: u8, b: u8, c: u8, d: u8) -> (s: String)
    ensures
        s@ == dotted(a as int, b as int, c as int, d as int),
{
    let mut s = number::to_decimal(a as u64);
    s.append(".");
    s.append(number::to_decimal(b as u64).as_str());
    s.append(".");
    s.append(number::to_decimal(c as u64).as_str());
    s.append(".");
    s.append(number::to_decimal(d as u64).as_str());
    s
}

fn coloned_text(g: &Vec<u16>, from: usize, to: usize) -> (s: String)
    requires
        from <= to <= g@.len(),
    ensures
        s@ == coloned(g@.subrange(from as int, to as int)),
{
    let mut s = String::new();
    let mut i: usize = from;
    assert(g@.subrange(from as int, from as int) =~= Seq::<u16>::empty());
    while i < to
        invariant
            from <= i <= to <= g@.len(),
            s@ == coloned(g@.subrange(from as int, i as int)),
        decreases to - i,
    {
        assert(g@.subrange(from as int, i + 1).drop_last() =~= g@.subrange(from as int, i as int));
        if i > from {
            s.push(':');
        }
        s.append(number::to_hexadecimal(g[i] as u64).as_str());
        i += 1;
        if i == from + 1 {
            assert(s@ =~= number::hexadecimal(g@[from as int] as nat));
        }
    }
    s
}

fn find_longest_run(g: &Vec<u16>) -> (r: (usize, usize))
    requires
        g@.len() == 8,
    ensures
        (r.0 as int, r.1 as int) == longest_run(g@, 8),
        r.0 + r.1 <= 8,
{
    let mut best: (usize, usize) = (0, 0);
    let mut run: usize = 0;
    let mut i: usize = 0;
    while i < 8
        invariant
            g@.len() == 8,
            i <= 8,
            run <= i,
            run == zero_run(g@, i as int),
            (best.0 as int, best.1 as int) == longest_run(g@, i as int),
            best.0 + best.1 <= i,
        decreases 8 - i,
    {
        if g[i] == 0 {
            run += 1;
        } else {
            run = 0;
        }
        i += 1;
        if run > best.1 {
            best = (i - run, run);
        }
    }
    best
}

// ---------------------------------------------------------------------------
// Laws
// ---------------------------------------------------------------------------
proof fn octets_len(pieces: Seq<Seq<char>>)
    ensures
        octets(pieces) is Some ==> octets(pieces)->0.len() == pieces.len(),
    decreases pieces.len(),
{
    if pieces.len() > 0 {
        octets_len(pieces.drop_last());
    }
}

/// An address is four octets or eight groups.
pub proof fn addresses_are_whole(s: Seq<char>)
    ensures
        address(s) is Some ==> address(s)->0.well_formed(),
{
    octets_len(text::split(s, '.'));
}

proof fn no_dot(n: nat)
    ensures
        !number::decimal(n).contains('.'),
{
    number::decimal_reads_back(n);
    let s = number::decimal(n);
    if s.contains('.') {
        let i = choose|i: int| 0 <= i < s.len() && s[i] == '.';
        assert(number::is_digit(s[i]));
    }
}

proof fn octet_reads_back(n: u8)
    ensures
        octet(number::decimal(n as nat)) == Some(n),
{
    number::decimal_reads_back(n as nat);
    number::short_numerals(n as nat);
}

/// Four numbers below 256 with dots between them are an address, and read back as these
/// numbers.
pub proof fn dotted_quads_are_addresses(a: u8, b: u8, c: u8, d: u8)
    ensures
        address(
            number::decimal(a as nat) + seq!['.'] + number::decimal(b as nat) + seq!['.']
                + number::decimal(c as nat) + seq!['.'] + number::decimal(d as nat),
        ) == Some(IpAddressView::V4(seq![a, b, c, d])),
{
    let (x, y, z, w) = (
        number::decimal(a as nat),
        number::decimal(b as nat),
        number::decimal(c as nat),
        number::decimal(d as nat),
    );
    no_dot(a as nat);
    no_dot(b as nat);
    no_dot(c as nat);
    no_dot(d as nat);
    octet_reads_back(a);
    octet_reads_back(b);
    octet_reads_back(c);
    octet_reads_back(d);
    let s = x + seq!['.'] + y + seq!['.'] + z + seq!['.'] + w;
    let xyz = x + seq!['.'] + y + seq!['.'] + z;
    let xy = x + seq!['.'] + y;
    assert(s =~= xyz.push('.') + w);
    assert(xyz =~= xy.push('.') + z);
    assert(xy =~= x.push('.') + y);
    text::split_cuts_at_separators(xyz, w, '.');
    text::split_cuts_at_separators(xy, z, '.');
    text::split_cuts_at_separators(x, y, '.');
    text::split_cuts_at_separators(x, x, '.');
    let p4 = text::split(s, '.');
    let p3 = text::split(xyz, '.');
    let p2 = text::split(xy, '.');
    let p1 = text::split(x, '.');
    assert(p4.drop_last() =~= p3);
    assert(p3.drop_last() =~= p2);
    assert(p2.drop_last() =~= p1);
    assert(p1.drop_last() =~= Seq::<Seq<char>>::empty());
    assert(octets(p1.drop_last()) == Some(Seq::<u8>::empty()));
    assert(octets(p1)->0 =~= seq![a]);
    assert(octets(p2)->0 =~= seq![a, b]);
    assert(octets(p3)->0 =~= seq![a, b, c]);
    assert(octets(p4)->0 =~= seq![a, b, c, d]);
}

/// Nothing else is read as an address of four numbers.
pub proof fn only_dotted_quads_are_read(s: Seq<char>)
    requires
        address(s) is Some,
        address(s)->0 is V4,
    ensures
        ({
            let o = address(s)->0->V4_0;
            &&& o.len() == 4
            &&& s == number::decimal(o[0] as nat) + seq!['.'] + number::decimal(o[1] as nat)
                + seq!['.'] + number::decimal(o[2] as nat) + seq!['.'] + number::decimal(
                o[3] as nat,
            )
        }),
{
    let p = text::split(s, '.');
    let o = octets(p)->0;
    octets_len(p);
    let s3 = s.take(text::last_index(s, '.'));
    let s2 = s3.take(text::last_index(s3, '.'));
    let s1 = s2.take(text::last_index(s2, '.'));
    text::split_at_its_last(s, '.');
    text::split_at_its_last(s3, '.');
    text::split_at_its_last(s2, '.');
    text::split_at_its_last(s1, '.');
    assert(s.contains('.'));
    let p3 = text::split(s3, '.');
    assert(p.drop_last() =~= p3);
    assert(s3.contains('.'));
    let p2 = text::split(s2, '.');
    assert(p3.drop_last() =~= p2);
    assert(s2.contains('.'));
    let p1 = text::split(s1, '.');
    assert(p2.drop_last() =~= p1);
    if s1.contains('.') {
        let s0 = s1.take(text::last_index(s1, '.'));
        path::split_nonempty(s0, '.');
    }
    assert(p1.drop_last() =~= Seq::<Seq<char>>::empty());
    octet_text(p1.last());
    octet_text(p2.last());
    octet_text(p3.last());
    octet_text(p.last());
    assert(octets(p1.drop_last()) == Some(Seq::<u8>::empty()));
    let o3 = octets(p3)->0;
    let o2 = octets(p2)->0;
    let o1 = octets(p1)->0;
    assert(octets(p) == Some(o3.push(octet(p.last())->0)));
    assert(octets(p3) == Some(o2.push(octet(p3.last())->0)));
    assert(octets(p2) == Some(o1.push(octet(p2.last())->0)));
    octets_len(p3);
    octets_len(p2);
    octets_len(p1);
    assert(s =~= s1 + seq!['.'] + p2.last() + seq!['.'] + p3.last() + seq!['.'] + p.last());
}

proof fn octet_text(s: Seq<char>)
    ensures
        octet(s) is Some ==> s == number::decimal(octet(s)->0 as nat),
{
    if octet(s) is Some {
        number::digits_are_the_numeral_of_their_worth(s);
    }
}

/// What a group of a long address is: one to four hexadecimal digits, small or capital.
pub proof fn what_groups_are(s: Seq<char>, c: char)
    ensures
        group(s) is Some <==> 1 <= s.len() <= 4 && forall|i: int|
            0 <= i < s.len() ==> {
                ||| '0' <= #[trigger] s[i] && s[i] <= '9'
                ||| 'a' <= s[i] && s[i] <= 'f'
                ||| 'A' <= s[i] && s[i] <= 'F'
            },
        group(s) is Some ==> 0 <= hex_value(s) < 0x10000 && group(s)->0 == hex_value(s),
        hex_value(Seq::empty()) == 0,
        '0' <= c && c <= '9' ==> hex_value(s.push(c)) == 16 * hex_value(s) + (c as int - 48),
        'a' <= c && c <= 'f' ==> hex_value(s.push(c)) == 16 * hex_value(s) + (c as int - 87),
        'A' <= c && c <= 'F' ==> hex_value(s.push(c)) == 16 * hex_value(s) + (c as int - 55),
{
    assert(s.push(c).drop_last() =~= s);
    if group(s) is Some {
        hex_bound(s);
    }
    if 1 <= s.len() <= 4 && forall|i: int|
        0 <= i < s.len() ==> {
            ||| '0' <= #[trigger] s[i] && s[i] <= '9'
            ||| 'a' <= s[i] && s[i] <= 'f'
            ||| 'A' <= s[i] && s[i] <= 'F'
        } {
        assert forall|i: int| 0 <= i < s.len() implies is_hex(#[trigger] s[i]) by {}
    }
    if group(s) is Some {
        assert forall|i: int| 0 <= i < s.len() implies {
            ||| '0' <= #[trigger] s[i] && s[i] <= '9'
            ||| 'a' <= s[i] && s[i] <= 'f'
            ||| 'A' <= s[i] && s[i] <= 'F'
        } by {
            assert(is_hex(s[i]));
        }
    }
}

proof fn hex_bound(s: Seq<char>)
    requires
        s.len() <= 4,
        forall|i: int| 0 <= i < s.len() ==> is_hex(#[trigger] s[i]),
    ensures
        0 <= hex_value(s),
        s.len() == 0 ==> hex_value(s) < 1,
        s.len() == 1 ==> hex_value(s) < 16,
        s.len() == 2 ==> hex_value(s) < 256,
        s.len() == 3 ==> hex_value(s) < 4096,
        s.len() == 4 ==> hex_value(s) < 65536,
    decreases s.len(),
{
    if s.len() > 0 {
        let f = s.drop_last();
        assert forall|i: int| 0 <= i < f.len() implies is_hex(#[trigger] f[i]) by {
            assert(is_hex(s[i]));
        }
        hex_bound(f);
        assert(is_hex(s[s.len() - 1]));
    }
}

/// Groups are read one by one.
pub proof fn groups_are_read_one_by_one(pieces: Seq<Seq<char>>)
    ensures
        groups(pieces) is Some <==> forall|i: int|
            0 <= i < pieces.len() ==> group(#[trigger] pieces[i]) is Some,
        groups(pieces) is Some ==> groups(pieces)->0.len() == pieces.len() && forall|i: int|
            0 <= i < pieces.len() ==> Some(groups(pieces)->0[i]) == group(#[trigger] pieces[i]),
    decreases pieces.len(),
{
    if pieces.len() > 0 {
        let f = pieces.drop_last();
        groups_are_read_one_by_one(f);
        if groups(pieces) is Some {
            assert forall|i: int| 0 <= i < pieces.len() implies group(#[trigger] pieces[i]) is Some
                && Some(groups(pieces)->0[i]) == group(pieces[i]) by {
                if i < f.len() {
                    assert(f[i] == pieces[i]);
                }
            }
        }
        if forall|i: int| 0 <= i < pieces.len() ==> group(#[trigger] pieces[i]) is Some {
            assert forall|i: int| 0 <= i < f.len() implies group(#[trigger] f[i]) is Some by {
                assert(f[i] == pieces[i]);
            }
            assert(group(pieces[pieces.len() - 1]) is Some);
        }
    }
}

proof fn gap_is_first(s: Seq<char>)
    ensures
        ({
            let k = gap_index(s);
            &&& 0 <= k <= s.len()
            &&& k < s.len() ==> k + 1 < s.len() && s[k] == ':' && s[k + 1] == ':'
            &&& forall|i: int|
                0 <= i < k && i + 1 < s.len() ==> !(#[trigger] s[i] == ':' && s[i + 1] == ':')
        }),
    decreases s.len(),
{
    if s.len() >= 2 && !(s[0] == ':' && s[1] == ':') {
        let t = s.subrange(1, s.len() as int);
        gap_is_first(t);
        let k = gap_index(s);
        assert forall|i: int| 0 <= i < k && i + 1 < s.len() implies !(#[trigger] s[i] == ':' && s[i
            + 1] == ':') by {
            if i > 0 {
                assert(s[i] == t[i - 1] && s[i + 1] == t[i]);
            }
        }
    }
}

/// Eight groups with colons between them are a long address, and read back as the worth
/// of the groups.
pub proof fn eight_groups_are_an_address(s: Seq<char>)
    requires
        text::split(s, ':').len() == 8,
        forall|i: int| 0 <= i < 8 ==> group(#[trigger] text::split(s, ':')[i]) is Some,
    ensures
        ipv6(s) is Some,
        ipv6(s)->0.len() == 8,
        forall|i: int|
            0 <= i < 8 ==> Some(ipv6(s)->0[i]) == group(#[trigger] text::split(s, ':')[i]),
{
    let p = text::split(s, ':');
    groups_are_read_one_by_one(p);
    gap_is_first(s);
    let k = gap_index(s);
    if k < s.len() {
        let a = s.take(k);
        let b = s.subrange(k + 2, s.len() as int);
        let none = Seq::<char>::empty();
        assert(s =~= (a.push(':') + none).push(':') + b);
        text::split_cuts_each_side(a.push(':') + none, b, ':');
        text::split_cuts_at_separators(a, none, ':');
        let n = text::split(a, ':').len() as int;
        assert(p[n] == none);
        assert(group(p[n]) is Some);
    }
    assert(group(p[7]) is Some);
    no_dot_in_group(p[7]);
    assert(p.last() == p[7]);
}

proof fn no_dot_in_group(s: Seq<char>)
    requires
        group(s) is Some,
    ensures
        ipv4(s) is None,
{
    text::split_at_its_last(s, '.');
    if s.contains('.') {
        let i = choose|i: int| 0 <= i < s.len() && s[i] == '.';
        assert(is_hex(s[i]));
    }
}

/// Two colons stand for as many zeros as are missing.
pub proof fn two_colons_stand_for_zeros(head: Seq<char>, tail: Seq<char>)
    requires
        head.len() > 0,
        tail.len() > 0,
        forall|i: int|
            0 <= i < text::split(head, ':').len() ==> group(#[trigger] text::split(head, ':')[i])
                is Some,
        forall|i: int|
            0 <= i < text::split(tail, ':').len() ==> group(#[trigger] text::split(tail, ':')[i])
                is Some,
        text::split(head, ':').len() + text::split(tail, ':').len() <= 7,
    ensures
        ({
            let h = text::split(head, ':');
            let t = text::split(tail, ':');
            let g = ipv6(head + seq![':', ':'] + tail);
            &&& g is Some
            &&& g->0.len() == 8
            &&& forall|i: int| 0 <= i < h.len() ==> Some(g->0[i]) == group(#[trigger] h[i])
            &&& forall|i: int| h.len() <= i < 8 - t.len() ==> #[trigger] g->0[i] == 0
            &&& forall|i: int|
                0 <= i < t.len() ==> Some(g->0[8 - t.len() + i]) == group(#[trigger] t[i])
        }),
{
    let s = head + seq![':', ':'] + tail;
    let h = text::split(head, ':');
    let t = text::split(tail, ':');
    gap_is_first(s);
    let k = gap_index(s);
    let n = head.len() as int;
    assert(s[n] == ':' && s[n + 1] == ':');
    assert(k <= n);
    if k < n {
        let none = Seq::<char>::empty();
        if k + 1 < n {
            let a = head.take(k);
            let b = head.subrange(k + 2, n);
            assert(s[k] == head[k] && s[k + 1] == head[k + 1]);
            assert(head =~= (a.push(':') + none).push(':') + b);
            text::split_cuts_each_side(a.push(':') + none, b, ':');
            text::split_cuts_at_separators(a, none, ':');
            let j = text::split(a, ':').len() as int;
            assert(h[j] == none);
            assert(group(h[j]) is Some);
        } else {
            let a = head.take(k);
            assert(s[k] == head[k]);
            assert(head =~= a.push(':') + none);
            text::split_cuts_at_separators(a, none, ':');
            assert(h[h.len() - 1] == none);
            assert(group(h[h.len() - 1]) is Some);
        }
    }
    assert(s.subrange(0, k) =~= head);
    assert(s.subrange(k + 2, s.len() as int) =~= tail);
    groups_are_read_one_by_one(h);
    groups_are_read_one_by_one(t);
    path::split_nonempty(tail, ':');
    assert(group(t[t.len() - 1]) is Some);
    no_dot_in_group(t[t.len() - 1]);
    let gh = groups(h)->0;
    let gt = groups(t)->0;
    let g = ipv6(s)->0;
    assert(g == gh + zeros(8 - gh.len() - gt.len()) + gt);
    assert forall|i: int| 0 <= i < h.len() implies Some(g[i]) == group(#[trigger] h[i]) by {
        assert(g[i] == gh[i]);
    }
    assert forall|i: int| 0 <= i < t.len() implies Some(g[8 - t.len() + i]) == group(
        #[trigger] t[i],
    ) by {
        assert(g[8 - t.len() + i] == gt[i]);
    }
}

proof fn run_is_zeros(g: Seq<u16>, i: int)
    requires
        0 <= i <= g.len(),
    ensures
        0 <= zero_run(g, i) <= i,
        forall|j: int| i - zero_run(g, i) <= j < i ==> #[trigger] g[j] == 0,
        zero_run(g, i) < i ==> g[i - zero_run(g, i) - 1] != 0,
    decreases i,
{
    if 0 < i && g[i - 1] == 0 {
        run_is_zeros(g, i - 1);
    }
}

/// The run that a long address is shortened by: it is made of zeros, no run of zeros is
/// longer, and none in front of it is as long.
pub proof fn which_run_is_shortened(g: Seq<u16>, n: int, a: int, b: int)
    requires
        0 <= n <= g.len(),
    ensures
        ({
            let (start, len) = longest_run(g, n);
            &&& 0 <= start && 0 <= len && start + len <= n
            &&& forall|j: int| start <= j < start + len ==> #[trigger] g[j] == 0
            &&& 0 <= a < b <= n && (forall|j: int| a <= j < b ==> #[trigger] g[j] == 0) ==> b - a
                <= len && (b - a == len ==> start <= a)
        }),
    decreases n,
{
    if n > 0 {
        run_is_zeros(g, n);
        if b < n {
            which_run_is_shortened(g, n - 1, a, b);
        } else {
            which_run_is_shortened(g, n - 1, a, n - 1);
        }
        if 0 <= a < b && b == n && forall|j: int| a <= j < b ==> #[trigger] g[j] == 0 {
            let r = zero_run(g, n);
            assert(b - a <= r) by {
                if r < b - a {
                    assert(g[n - r - 1] == 0);
                }
            }
            let (s0, l0) = longest_run(g, n - 1);
            if r <= l0 && b - a == l0 {
                assert(a <= n - 1 || a == n - 1);
                which_run_is_shortened(g, n - 1, s0, s0 + l0);
            }
        }
    }
}

/// How addresses are written: four numbers with dots between them; or groups with
/// colons between them, with two colons in place of the longest run of zeros if it has
/// more than one; or, where a short address is carried, that one behind `::ffff:`.
pub proof fn how_addresses_are_written(g: Seq<u16>, o: Seq<u8>, x: u16)
    requires
        g.len() == 8,
        o.len() == 4,
    ensures
        address_text(IpAddressView::V4(o)) == number::decimal(o[0] as nat) + "."@ + number::decimal(
            o[1] as nat,
        ) + "."@ + number::decimal(o[2] as nat) + "."@ + number::decimal(o[3] as nat),
        ({
            let carried = g[0] == 0 && g[1] == 0 && g[2] == 0 && g[3] == 0 && g[4] == 0 && g[5]
                == 0xffff;
            let (start, len) = longest_run(g, 8);
            let t = address_text(IpAddressView::V6(g));
            &&& carried ==> t == "::ffff:"@ + (number::decimal(g[6] as nat / 256) + "."@
                + number::decimal(g[6] as nat % 256) + "."@ + number::decimal(g[7] as nat / 256)
                + "."@ + number::decimal(g[7] as nat % 256))
            &&& !carried && len > 1 ==> t == coloned(g.subrange(0, start)) + "::"@ + coloned(
                g.subrange(start + len, 8),
            )
            &&& !carried && len <= 1 ==> t == coloned(g)
        }),
        coloned(Seq::empty()).len() == 0,
        coloned(seq![x]) == number::hexadecimal(x as nat),
        coloned(g.push(x)) == coloned(g).push(':') + number::hexadecimal(x as nat),
{
    assert(g.push(x).drop_last() =~= g);
    let (start, len) = longest_run(g, 8);
    which_run_is_shortened(g, 8, 0, 0);
    assert(g.take(start) =~= g.subrange(0, start));
    if g[0] == 0 && g[1] == 0 && g[2] == 0 && g[3] == 0 && g[4] == 0 && g[5] == 0xffff {
        assert(g.take(5) =~= zeros(5));
    } else if carries_ipv4(g) {
        assert(zeros(5)[0] == 0 && zeros(5)[1] == 0 && zeros(5)[2] == 0 && zeros(5)[3] == 0
            && zeros(5)[4] == 0);
        assert(g.take(5)[0] == g[0] && g.take(5)[1] == g[1] && g.take(5)[2] == g[2] && g.take(5)[3]
            == g[3] && g.take(5)[4] == g[4]);
    }
}

} // verus!
