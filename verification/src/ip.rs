//! IP addresses and their textual notation.
//!
//! An IPv4 address is written as four decimal octets without leading zeros, separated by dots. An
//! IPv6 address is written as eight hexadecimal groups separated by colons, where one run of zero
//! groups may be left out as `::` and the last two groups may be written as an IPv4 address.

use vstd::prelude::*;
use vstd::slice::slice_subrange;

use crate::text::{
    chars_of, decimal_digit, first_text, hex_digit, push_decimal, push_hex, push_text, split_chars,
};

verus! {

/// An IP address: the four octets of an IPv4 address, or the eight groups of an IPv6 address.
#[derive(Debug, Clone, Copy, PartialEq, Eq)]
pub enum IpAddr {
    /// An IPv4 address.
    V4([u8; 4]),
    /// An IPv6 address.
    V6([u16; 8]),
}

/// The octets or groups of an address.
pub enum IpView {
    /// The four octets of an IPv4 address.
    V4(Seq<u8>),
    /// The eight groups of an IPv6 address.
    V6(Seq<u16>),
}

impl View for IpAddr {
    type V = IpView;

    open spec fn view(&self) -> IpView {
        match *self {
            IpAddr::V4(octets) => IpView::V4(octets@),
            IpAddr::V6(groups) => IpView::V6(groups@),
        }
    }
}

// ---------------------------------------------------------------------------------------------
// The grammar
// ---------------------------------------------------------------------------------------------
/// The octet that `s` notes: one to three decimal digits without a leading zero, at most 255.
pub open spec fn octet_of(s: Seq<char>) -> Option<u8> {
    if 1 <= s.len() <= 3 && crate::text::all_digits(s) && (s.len() > 1 ==> s[0] != '0')
        && crate::text::decimal_value(s) <= 255 {
        Some(crate::text::decimal_value(s) as u8)
    } else {
        None
    }
}

/// The octets of the IPv4 address that `s` notes.
pub open spec fn ipv4_of(s: Seq<char>) -> Option<Seq<u8>> {
    let p = crate::text::split_on(s, '.');
    if p.len() == 4 {
        match (octet_of(p[0]), octet_of(p[1]), octet_of(p[2]), octet_of(p[3])) {
            (Some(a), Some(b), Some(c), Some(d)) => Some(seq![a, b, c, d]),
            _ => None,
        }
    } else {
        None
    }
}

/// The group that `s` notes: one to four hexadecimal digits.
pub open spec fn group_of(s: Seq<char>) -> Option<u16> {
    if 1 <= s.len() <= 4 && crate::text::all_hex_digits(s) {
        Some(crate::text::hex_value(s) as u16)
    } else {
        None
    }
}

/// The two groups that the octets of an IPv4 address make up.
pub open spec fn groups_of_octets(o: Seq<u8>) -> Seq<u16> {
    seq![(o[0] * 256 + o[1]) as u16, (o[2] * 256 + o[3]) as u16]
}

/// The groups that a list of pieces notes: each piece is a group, and the last one may be an IPv4
/// address where `v4_tail` allows it.
pub open spec fn groups_of_pieces(p: Seq<Seq<char>>, v4_tail: bool) -> Option<Seq<u16>>
    decreases p.len(),
{
    if p.len() == 0 {
        Some(Seq::empty())
    } else if p.len() == 1 && v4_tail && ipv4_of(p[0]) is Some {
        Some(groups_of_octets(ipv4_of(p[0])->0))
    } else {
        match (group_of(p[0]), groups_of_pieces(p.drop_first(), v4_tail)) {
            (Some(g), Some(rest)) => Some(seq![g] + rest),
            _ => None,
        }
    }
}

/// The groups that `s` notes: none where it is empty, else colon-separated groups.
pub open spec fn groups_of(s: Seq<char>, v4_tail: bool) -> Option<Seq<u16>> {
    if s.len() == 0 {
        Some(Seq::empty())
    } else {
        groups_of_pieces(crate::text::split_on(s, ':'), v4_tail)
    }
}

/// `head`, then as many zero groups as it takes, then `tail`: eight groups in all.
pub open spec fn fill_zeros(head: Seq<u16>, tail: Seq<u16>) -> Seq<u16> {
    head + Seq::new((8 - head.len() - tail.len()) as nat, |i: int| 0u16) + tail
}

/// The groups of the IPv6 address that `s` notes.
///
/// The first `::` stands for at least one zero group; an IPv4 address may only end the notation.
pub open spec fn ipv6_of(s: Seq<char>) -> Option<Seq<u16>> {
    match crate::text::find_text(s, seq![':', ':']) {
        Some(i) => match (groups_of(s.take(i), false), groups_of(s.skip(i + 2), true)) {
            (Some(head), Some(tail)) => if head.len() + tail.len() <= 7 {
                Some(fill_zeros(head, tail))
            } else {
                None
            },
            _ => None,
        },
        None => match groups_of(s, true) {
            Some(groups) => if groups.len() == 8 {
                Some(groups)
            } else {
                None
            },
            None => None,
        },
    }
}

/// The address that `s` notes.
pub open spec fn ip_of(s: Seq<char>) -> Option<IpView> {
    match ipv4_of(s) {
        Some(octets) => Some(IpView::V4(octets)),
        None => match ipv6_of(s) {
            Some(groups) => Some(IpView::V6(groups)),
            None => None,
        },
    }
}

// ---------------------------------------------------------------------------------------------
// Parsing
// ---------------------------------------------------------------------------------------------
fn parse_octet(s: &[char]) -> (r: Option<u8>)
    ensures
        r == octet_of(s@),
{
    if s.len() < 1 || s.len() > 3 {
        return None;
    }
    if s.len() > 1 && s[0] == '0' {
        return None;
    }
    let mut v: u16 = 0;
    let mut i: usize = 0;
    while i < s.len()
        invariant
            i <= s@.len() <= 3,
            forall|j: int| 0 <= j < i ==> crate::text::is_digit(#[trigger] s@[j]),
            v == crate::text::decimal_value(s@.take(i as int)),
            i == 0 ==> v == 0,
            i == 1 ==> v <= 9,
            i == 2 ==> v <= 99,
            i == 3 ==> v <= 999,
        decreases s@.len() - i,
    {
        match decimal_digit(s[i]) {
            Some(d) => {
                v = v * 10 + d as u16;
                assert(s@.take(i + 1).drop_last() =~= s@.take(i as int));
                i = i + 1;
            },
            None => {
                return None;
            },
        }
    }
    assert(s@.take(i as int) =~= s@);
    if v <= 255 {
        Some(v as u8)
    } else {
        None
    }
}

fn parse_ipv4(s: &[char]) -> (r: Option<[u8; 4]>)
    ensures
        match r {
            Some(octets) => ipv4_of(s@) == Some(octets@),
            None => ipv4_of(s@) is None,
        },
{
    let p = split_chars(s, '.');
    if p.len() != 4 {
        return None;
    }
    let ghost q = crate::text::split_on(s@, '.');
    assert(p@[0]@ == q[0] && p@[1]@ == q[1] && p@[2]@ == q[2] && p@[3]@ == q[3]);
    match (parse_octet(p[0]), parse_octet(p[1]), parse_octet(p[2]), parse_octet(p[3])) {
        (Some(a), Some(b), Some(c), Some(d)) => {
            let octets: [u8; 4] = [a, b, c, d];
            assert(octets@ =~= seq![a, b, c, d]);
            Some(octets)
        },
        _ => None,
    }
}

fn parse_group(s: &[char]) -> (r: Option<u16>)
    ensures
        r == group_of(s@),
{
    if s.len() < 1 || s.len() > 4 {
        return None;
    }
    let mut v: u32 = 0;
    let mut i: usize = 0;
    while i < s.len()
        invariant
            i <= s@.len() <= 4,
            forall|j: int| 0 <= j < i ==> crate::text::is_hex_digit(#[trigger] s@[j]),
            v == crate::text::hex_value(s@.take(i as int)),
            v < 0x10000,
        decreases s@.len() - i,
    {
        match hex_digit(s[i]) {
            Some(d) => {
                v = v * 16 + d as u32;
                assert(s@.take(i + 1).drop_last() =~= s@.take(i as int));
                i = i + 1;
                proof {
                    crate::text::lemma_hex_value_bound(s@.take(i as int));
                }
            },
            None => {
                return None;
            },
        }
    }
    assert(s@.take(i as int) =~= s@);
    Some(v as u16)
}

/// Once a piece is no group, the whole list notes nothing.
proof fn lemma_bad_piece(p: Seq<Seq<char>>, v4_tail: bool, i: int)
    requires
        0 <= i < p.len(),
        group_of(p[i]) is None,
        i + 1 < p.len() || !v4_tail || ipv4_of(p[i]) is None,
    ensures
        groups_of_pieces(p, v4_tail) is None,
    decreases p.len(),
{
    if i > 0 {
        lemma_bad_piece(p.drop_first(), v4_tail, i - 1);
    }
}

/// The groups of a list are those of its first pieces, then those of the rest.
pub proof fn lemma_groups_append(p: Seq<Seq<char>>, gs: Seq<u16>, v4_tail: bool)
    requires
        gs.len() <= p.len(),
        gs.len() == p.len() || p.len() >= 1,
        forall|i: int| 0 <= i < gs.len() ==> group_of(p[i]) == Some(#[trigger] gs[i]),
        forall|i: int| 0 <= i < gs.len() ==> ipv4_of(#[trigger] p[i]) is None || i + 1 < p.len()
            || !v4_tail,
    ensures
        groups_of_pieces(p, v4_tail) == (match groups_of_pieces(p.skip(gs.len() as int), v4_tail) {
            Some(rest) => Some(gs + rest),
            None => None,
        }),
    decreases gs.len(),
{
    if gs.len() == 0 {
        assert(p.skip(0) =~= p);
        if groups_of_pieces(p, v4_tail) is Some {
            let rest = groups_of_pieces(p, v4_tail)->0;
            assert(gs + rest =~= rest);
        }
    } else {
        assert(group_of(p[0]) == Some(gs[0]));
        let p1 = p.drop_first();
        let g1 = gs.drop_first();
        assert forall|i: int| 0 <= i < g1.len() implies group_of(p1[i]) == Some(#[trigger] g1[i]) by {
            assert(group_of(p[i + 1]) == Some(gs[i + 1]));
        }
        assert forall|i: int| 0 <= i < g1.len() implies ipv4_of(#[trigger] p1[i]) is None || i + 1
            < p1.len() || !v4_tail by {
            assert(ipv4_of(p[i + 1]) is None || i + 2 < p.len() || !v4_tail);
        }
        lemma_groups_append(p1, g1, v4_tail);
        assert(p1.skip(g1.len() as int) =~= p.skip(gs.len() as int));
        if groups_of_pieces(p.skip(gs.len() as int), v4_tail) is Some {
            let rest = groups_of_pieces(p.skip(gs.len() as int), v4_tail)->0;
            assert(seq![gs[0]] + (g1 + rest) =~= gs + rest);
        }
    }
}

/// A piece that notes a group notes no IPv4 address.
pub proof fn lemma_group_is_no_ipv4(s: Seq<char>)
    requires
        group_of(s) is Some,
    ensures
        ipv4_of(s) is None,
{
    assert(!s.contains('.')) by {
        if s.contains('.') {
            let i = choose|i: int| 0 <= i < s.len() && s[i] == '.';
            assert(crate::text::is_hex_digit(s[i]));
        }
    }
    crate::text::lemma_split_on_single(s, '.');
}

fn parse_groups(s: &[char], v4_tail: bool) -> (r: Option<Vec<u16>>)
    ensures
        match r {
            Some(groups) => groups_of(s@, v4_tail) == Some(groups@),
            None => groups_of(s@, v4_tail) is None,
        },
{
    let mut groups: Vec<u16> = Vec::new();
    if s.len() == 0 {
        assert(groups@ =~= Seq::<u16>::empty());
        return Some(groups);
    }
    let p = split_chars(s, ':');
    let ghost q = crate::text::split_on(s@, ':');
    let mut i: usize = 0;
    while i < p.len()
        invariant
            s@.len() > 0,
            i <= p@.len(),
            p@.len() == q.len(),
            q == crate::text::split_on(s@, ':'),
            forall|j: int| 0 <= j < p@.len() ==> (#[trigger] p@[j])@ == q[j],
            groups@.len() == i,
            forall|j: int| 0 <= j < i ==> group_of(q[j]) == Some(#[trigger] groups@[j]),
        decreases p@.len() - i,
    {
        let piece = p[i];
        assert(piece@ == q[i as int]);
        match parse_group(piece) {
            Some(g) => {
                groups.push(g);
                i = i + 1;
            },
            None => {
                if i + 1 == p.len() && v4_tail {
                    match parse_ipv4(piece) {
                        Some(o) => {
                            let hi: u16 = o[0] as u16 * 256 + o[1] as u16;
                            let lo: u16 = o[2] as u16 * 256 + o[3] as u16;
                            proof {
                                let last = q.skip(i as int);
                                assert(last.len() == 1 && last[0] == q[i as int]);
                                lemma_groups_append(q, groups@, v4_tail);
                                assert(groups_of_octets(o@) =~= seq![hi, lo]);
                            }
                            let ghost before = groups@;
                            groups.push(hi);
                            groups.push(lo);
                            assert(groups@ =~= before + seq![hi, lo]);
                            return Some(groups);
                        },
                        None => {},
                    }
                }
                proof {
                    lemma_bad_piece(q, v4_tail, i as int);
                }
                return None;
            },
        }
    }
    proof {
        assert forall|j: int| 0 <= j < groups@.len() implies ipv4_of(#[trigger] q[j]) is None || j
            + 1 < q.len() || !v4_tail by {
            assert(group_of(q[j]) == Some(groups@[j]));
            lemma_group_is_no_ipv4(q[j]);
        }
        lemma_groups_append(q, groups@, v4_tail);
        assert(q.skip(groups@.len() as int) =~= Seq::<Seq<char>>::empty());
        assert(groups@ + Seq::<u16>::empty() =~= groups@);
    }
    Some(groups)
}

/// The eight groups as an array.
fn group_array(g: &Vec<u16>) -> (r: [u16; 8])
    requires
        g@.len() == 8,
    ensures
        r@ == g@,
{
    let r: [u16; 8] = [g[0], g[1], g[2], g[3], g[4], g[5], g[6], g[7]];
    assert(r@ =~= g@);
    r
}

fn parse_ipv6(s: &[char]) -> (r: Option<[u16; 8]>)
    ensures
        match r {
            Some(groups) => ipv6_of(s@) == Some(groups@),
            None => ipv6_of(s@) is None,
        },
{
    let gap: [char; 2] = [':', ':'];
    assert(gap@ =~= seq![':', ':']);
    let n: usize = s.len();
    match first_text(s, &gap) {
        Some(i) => {
            let head = parse_groups(slice_subrange(s, 0, i), false);
            let tail = parse_groups(slice_subrange(s, i + 2, n), true);
            assert(s@.subrange(0, i as int) =~= s@.take(i as int));
            assert(s@.subrange(i + 2, s@.len() as int) =~= s@.skip(i + 2));
            match (head, tail) {
                (Some(h), Some(t)) => {
                    if h.len() > 7 || t.len() > 7 - h.len() {
                        return None;
                    }
                    let mut all: Vec<u16> = Vec::new();
                    let mut k: usize = 0;
                    while k < 8
                        invariant
                            k <= 8,
                            all@.len() == k,
                            h@.len() + t@.len() <= 7,
                            forall|j: int| 0 <= j < k ==> #[trigger] all@[j] == fill_zeros(h@, t@)[j],
                        decreases 8 - k,
                    {
                        let g: u16 = if k < h.len() {
                            h[k]
                        } else if k < 8 - t.len() {
                            0
                        } else {
                            t[k - (8 - t.len())]
                        };
                        all.push(g);
                        k = k + 1;
                    }
                    assert(all@ =~= fill_zeros(h@, t@));
                    Some(group_array(&all))
                },
                _ => None,
            }
        },
        None => match parse_groups(s, true) {
            Some(g) => if g.len() == 8 {
                Some(group_array(&g))
            } else {
                None
            },
            None => None,
        },
    }
}

/// Reads the address that the characters `s` note.
pub fn parse_ip_chars(s: &[char]) -> (r: Option<IpAddr>)
    ensures
        match r {
            Some(ip) => ip_of(s@) == Some(ip@),
            None => ip_of(s@) is None,
        },
{
    match parse_ipv4(s) {
        Some(octets) => Some(IpAddr::V4(octets)),
        None => match parse_ipv6(s) {
            Some(groups) => Some(IpAddr::V6(groups)),
            None => None,
        },
    }
}

/// Reads the address that `s` notes.
pub fn parse_ip(s: &str) -> (r: Option<IpAddr>)
    ensures
        match r {
            Some(ip) => ip_of(s@) == Some(ip@),
            None => ip_of(s@) is None,
        },
{
    let cs = chars_of(s);
    parse_ip_chars(&cs)
}

// ---------------------------------------------------------------------------------------------
// Printing
// ---------------------------------------------------------------------------------------------
/// The notation of an IPv4 address.
pub open spec fn ipv4_text(o: Seq<u8>) -> Seq<char> {
    crate::text::decimal_text(o[0] as nat).push('.') + (crate::text::decimal_text(
        o[1] as nat,
    ).push('.') + (crate::text::decimal_text(o[2] as nat).push('.') + crate::text::decimal_text(
        o[3] as nat,
    )))
}

/// The groups in hexadecimal notation, separated by colons.
pub open spec fn join_groups(gs: Seq<u16>) -> Seq<char>
    decreases gs.len(),
{
    if gs.len() == 0 {
        Seq::empty()
    } else if gs.len() == 1 {
        crate::text::hex_text(gs[0] as nat)
    } else {
        crate::text::hex_text(gs[0] as nat).push(':') + join_groups(gs.drop_first())
    }
}

/// Whether the `n` groups from index `a` on are all zero.
pub open spec fn zero_run(g: Seq<u16>, a: int, n: int) -> bool {
    &&& 0 <= a
    &&& 0 <= n
    &&& a + n <= g.len()
    &&& forall|i: int| a <= i < a + n ==> #[trigger] g[i] == 0
}

/// Whether the `n` groups from index `a` on are the run that `::` stands for: two or more zero
/// groups, no run is longer, and none of the same length starts earlier.
pub open spec fn is_gap(g: Seq<u16>, a: int, n: int) -> bool {
    &&& n >= 2
    &&& zero_run(g, a, n)
    &&& forall|b: int, m: int| #[trigger] zero_run(g, b, m) ==> m < n || (m == n && a <= b)
}

/// Whether the address is an IPv4 address mapped into IPv6.
pub open spec fn is_v4_mapped(g: Seq<u16>) -> bool {
    &&& zero_run(g, 0, 5)
    &&& g[5] == 0xffff
}

/// The octets of the last two groups.
pub open spec fn mapped_octets(g: Seq<u16>) -> Seq<u8> {
    seq![
        (g[6] / 256) as u8,
        (g[6] % 256) as u8,
        (g[7] / 256) as u8,
        (g[7] % 256) as u8,
    ]
}

/// The notation of an IPv6 address: a mapped IPv4 address ends in dotted octets, and else the
/// longest run of two or more zero groups is left out as `::`.
pub open spec fn ipv6_text(g: Seq<u16>) -> Seq<char> {
    if is_v4_mapped(g) {
        seq![':', ':', 'f', 'f', 'f', 'f', ':'] + ipv4_text(mapped_octets(g))
    } else if exists|a: int, n: int| is_gap(g, a, n) {
        let (a, n) = choose|a: int, n: int| is_gap(g, a, n);
        join_groups(g.take(a)) + seq![':', ':'] + join_groups(g.skip(a + n))
    } else {
        join_groups(g)
    }
}

/// The notation of an address.
pub open spec fn ip_text(ip: IpView) -> Seq<char> {
    match ip {
        IpView::V4(octets) => ipv4_text(octets),
        IpView::V6(groups) => ipv6_text(groups),
    }
}

fn push_ipv4(out: &mut String, o: &[u8; 4])
    ensures
        final(out)@ == old(out)@ + ipv4_text(o@),
{
    push_decimal(out, o[0] as u64);
    out.push('.');
    push_decimal(out, o[1] as u64);
    out.push('.');
    push_decimal(out, o[2] as u64);
    out.push('.');
    push_decimal(out, o[3] as u64);
    assert(out@ =~= old(out)@ + ipv4_text(o@));
}

fn push_groups(out: &mut String, g: &[u16; 8], from: usize, to: usize)
    requires
        from <= to <= 8,
    ensures
        final(out)@ == old(out)@ + join_groups(g@.subrange(from as int, to as int)),
    decreases to - from,
{
    let ghost gs = g@.subrange(from as int, to as int);
    if from < to {
        push_hex(out, g[from]);
        if from + 1 < to {
            out.push(':');
            push_groups(out, g, from + 1, to);
            assert(gs.drop_first() =~= g@.subrange(from + 1, to as int));
        }
    }
    assert(out@ =~= old(out)@ + join_groups(gs));
}

/// The start and length of the longest run of zero groups, the first one where several are as
/// long.
fn longest_zero_run(g: &[u16; 8]) -> (r: (usize, usize))
    ensures
        zero_run(g@, r.0 as int, r.1 as int),
        forall|b: int, m: int|
            m >= 1 && #[trigger] zero_run(g@, b, m) ==> m < r.1 || (m == r.1 && r.0 <= b),
{
    let mut start: usize = 0;
    let mut len: usize = 0;
    let mut current: usize = 0;
    let mut i: usize = 0;
    while i < 8
        invariant
            i <= 8,
            current <= i,
            start + len <= i,
            zero_run(g@, start as int, len as int),
            zero_run(g@, i - current, current as int),
            forall|b: int, m: int| #[trigger] zero_run(g@, b, m) && b + m == i ==> m <= current,
            forall|b: int, m: int|
                m >= 1 && #[trigger] zero_run(g@, b, m) && b + m <= i ==> m < len || (m == len
                    && start <= b),
        decreases 8 - i,
    {
        let ghost last = current;
        if g[i] == 0 {
            current = current + 1;
            if current > len {
                start = i + 1 - current;
                len = current;
            }
        } else {
            current = 0;
        }
        proof {
            assert forall|b: int, m: int| #[trigger] zero_run(g@, b, m) && b + m == i + 1 implies m
                <= current by {
                if m > 0 {
                    assert(g@[b + m - 1] == 0);
                    assert(zero_run(g@, b, m - 1));
                }
            }
            assert forall|b: int, m: int|
                m >= 1 && #[trigger] zero_run(g@, b, m) && b + m <= i + 1 implies m < len || (m
                == len && start <= b) by {
                if b + m == i + 1 {
                    assert(m <= current);
                }
            }
        }
        i = i + 1;
    }
    (start, len)
}

fn push_ipv6(out: &mut String, g: &[u16; 8])
    ensures
        final(out)@ == old(out)@ + ipv6_text(g@),
{
    if g[0] == 0 && g[1] == 0 && g[2] == 0 && g[3] == 0 && g[4] == 0 && g[5] == 0xffff {
        let o: [u8; 4] = [
            (g[6] / 256) as u8,
            (g[6] % 256) as u8,
            (g[7] / 256) as u8,
            (g[7] % 256) as u8,
        ];
        push_text(out, "::ffff:");
        push_ipv4(out, &o);
        proof {
            reveal_strlit("::ffff:");
            assert("::ffff:"@ =~= seq![':', ':', 'f', 'f', 'f', 'f', ':']);
            assert(o@ =~= mapped_octets(g@));
            assert(is_v4_mapped(g@));
        }
        assert(out@ =~= old(out)@ + ipv6_text(g@));
        return;
    }
    assert(!is_v4_mapped(g@)) by {
        if is_v4_mapped(g@) {
            assert(g@[0] == 0 && g@[1] == 0 && g@[2] == 0 && g@[3] == 0 && g@[4] == 0);
        }
    }
    let (start, len) = longest_zero_run(g);
    if len > 1 {
        push_groups(out, g, 0, start);
        push_text(out, "::");
        push_groups(out, g, start + len, 8);
        proof {
            reveal_strlit("::");
            assert("::"@ =~= seq![':', ':']);
            assert(is_gap(g@, start as int, len as int));
            lemma_gap_unique(g@, start as int, len as int);
            assert(g@.subrange(0, start as int) =~= g@.take(start as int));
            assert(g@.subrange(start + len, 8) =~= g@.skip(start + len));
        }
    } else {
        push_groups(out, g, 0, 8);
        proof {
            assert(g@.subrange(0, 8) =~= g@);
            assert forall|a: int, n: int| !is_gap(g@, a, n) by {
                if is_gap(g@, a, n) {
                    assert(zero_run(g@, a, n));
                }
            }
        }
    }
    assert(out@ =~= old(out)@ + ipv6_text(g@));
}

/// Appends the notation of `ip` to `out`.
pub fn push_ip(out: &mut String, ip: &IpAddr)
    ensures
        final(out)@ == old(out)@ + ip_text(ip@),
{
    match ip {
        IpAddr::V4(o) => push_ipv4(out, o),
        IpAddr::V6(g) => push_ipv6(out, g),
    }
}

/// There is at most one run that `::` stands for.
proof fn lemma_gap_unique(g: Seq<u16>, a: int, n: int)
    requires
        is_gap(g, a, n),
    ensures
        (exists|b: int, m: int| is_gap(g, b, m)),
        (choose|b: int, m: int| is_gap(g, b, m)) == (a, n),
{
    let (b, m) = choose|b: int, m: int| is_gap(g, b, m);
    assert(is_gap(g, b, m));
    assert(zero_run(g, b, m) && zero_run(g, a, n));
}

// ---------------------------------------------------------------------------------------------
// Reading back what was printed
// ---------------------------------------------------------------------------------------------
/// Whether the view has four octets or eight groups, as that of every address has.
pub open spec fn is_address(ip: IpView) -> bool {
    match ip {
        IpView::V4(octets) => octets.len() == 4,
        IpView::V6(groups) => groups.len() == 8,
    }
}

pub proof fn lemma_octet_text(n: u8)
    ensures
        octet_of(crate::text::decimal_text(n as nat)) == Some(n),
        !crate::text::decimal_text(n as nat).contains('.'),
        !crate::text::decimal_text(n as nat).contains(':'),
{
    let t = crate::text::decimal_text(n as nat);
    crate::text::lemma_decimal_text(n as nat);
    crate::text::lemma_decimal_text_short(n as nat);
    assert forall|i: int| 0 <= i < t.len() implies t[i] != '.' && t[i] != ':' by {
        assert(crate::text::is_digit(t[i]));
    }
}

proof fn lemma_ipv4_text(o: Seq<u8>)
    requires
        o.len() == 4,
    ensures
        ipv4_of(ipv4_text(o)) == Some(o),
        !ipv4_text(o).contains(':'),
{
    let t0 = crate::text::decimal_text(o[0] as nat);
    let t1 = crate::text::decimal_text(o[1] as nat);
    let t2 = crate::text::decimal_text(o[2] as nat);
    let t3 = crate::text::decimal_text(o[3] as nat);
    lemma_octet_text(o[0]);
    lemma_octet_text(o[1]);
    lemma_octet_text(o[2]);
    lemma_octet_text(o[3]);
    let r3 = t3;
    let r2 = t2.push('.') + r3;
    let r1 = t1.push('.') + r2;
    crate::text::lemma_split_on_single(t3, '.');
    crate::text::lemma_split_on_cons(t2, r3, '.');
    crate::text::lemma_split_on_cons(t1, r2, '.');
    crate::text::lemma_split_on_cons(t0, r1, '.');
    let p = crate::text::split_on(ipv4_text(o), '.');
    assert(p =~= seq![t0, t1, t2, t3]);
    assert(seq![o[0], o[1], o[2], o[3]] =~= o);
    let all = ipv4_text(o);
    assert forall|i: int| 0 <= i < all.len() implies all[i] != ':' by {
        let n0 = t0.len() as int + 1;
        let n1 = n0 + t1.len() + 1;
        let n2 = n1 + t2.len() + 1;
        if i < n0 {
            assert(all[i] == t0.push('.')[i]);
            if i < n0 - 1 {
                assert(t0.contains(t0[i]));
            }
        } else if i < n1 {
            assert(all[i] == t1.push('.')[i - n0]);
            if i < n1 - 1 {
                assert(t1.contains(t1[i - n0]));
            }
        } else if i < n2 {
            assert(all[i] == t2.push('.')[i - n1]);
            if i < n2 - 1 {
                assert(t2.contains(t2[i - n1]));
            }
        } else {
            assert(all[i] == t3[i - n2]);
            assert(t3.contains(t3[i - n2]));
        }
    }
}

/// Every character but the separator is in one of the pieces.
proof fn lemma_split_covers(s: Seq<char>, sep: char, c: char)
    requires
        s.contains(c),
        c != sep,
    ensures
        exists|k: int|
            0 <= k < crate::text::split_on(s, sep).len() && (#[trigger] crate::text::split_on(
                s,
                sep,
            )[k]).contains(c),
    decreases s.len(),
{
    s.index_of_first_ensures(sep);
    let p = crate::text::split_on(s, sep);
    match s.index_of_first(sep) {
        Some(i) => {
            let j = choose|j: int| 0 <= j < s.len() && s[j] == c;
            if j < i {
                assert(s.take(i)[j] == c);
                assert(p[0].contains(c));
            } else {
                let rest = s.skip(i + 1);
                assert(rest[j - i - 1] == c);
                lemma_split_covers(rest, sep, c);
                let q = crate::text::split_on(rest, sep);
                let k = choose|k: int| 0 <= k < q.len() && (#[trigger] q[k]).contains(c);
                assert(p[k + 1] == q[k]);
                assert(p[k + 1].contains(c));
            }
        },
        None => {
            assert(p[0].contains(c));
        },
    }
}

/// No IPv4 notation holds a colon.
pub proof fn lemma_colon_is_no_ipv4(s: Seq<char>)
    requires
        s.contains(':'),
    ensures
        ipv4_of(s) is None,
{
    lemma_split_covers(s, '.', ':');
    let p = crate::text::split_on(s, '.');
    let k = choose|k: int| 0 <= k < p.len() && (#[trigger] p[k]).contains(':');
    let j = choose|j: int| 0 <= j < p[k].len() && p[k][j] == ':';
    assert(!crate::text::is_digit(p[k][j]));
    assert(octet_of(p[k]) is None);
}

proof fn lemma_group_text(n: u16)
    ensures
        group_of(crate::text::hex_text(n as nat)) == Some(n),
        !crate::text::hex_text(n as nat).contains(':'),
        crate::text::hex_text(n as nat).len() >= 1,
{
    let t = crate::text::hex_text(n as nat);
    crate::text::lemma_hex_text(n as nat);
    crate::text::lemma_hex_text_short(n as nat);
    assert forall|i: int| 0 <= i < t.len() implies t[i] != ':' by {
        assert(crate::text::is_hex_digit(t[i]));
    }
}

/// Joined groups hold no two colons side by side, and none at either end.
proof fn lemma_join_colons(gs: Seq<u16>)
    requires
        gs.len() >= 1,
    ensures
        join_groups(gs).len() >= 1,
        join_groups(gs)[0] != ':',
        join_groups(gs).last() != ':',
        forall|i: int|
            0 <= i < join_groups(gs).len() - 1 ==> !(#[trigger] join_groups(gs)[i] == ':'
                && join_groups(gs)[i + 1] == ':'),
    decreases gs.len(),
{
    let t = crate::text::hex_text(gs[0] as nat);
    lemma_group_text(gs[0]);
    assert forall|i: int| 0 <= i < t.len() implies #[trigger] t[i] != ':' by {
        assert(t.contains(t[i]));
    }
    if gs.len() > 1 {
        let rest = join_groups(gs.drop_first());
        lemma_join_colons(gs.drop_first());
        let all = t.push(':') + rest;
        assert(join_groups(gs) == all);
        assert forall|i: int| 0 <= i < all.len() - 1 implies !(#[trigger] all[i] == ':' && all[i + 1]
            == ':') by {
            if i < t.len() {
                assert(all[i] == t[i]);
            } else if i == t.len() {
                assert(all[i + 1] == rest[0]);
            } else {
                let k = i - t.len() - 1;
                assert(all[i] == rest[k] && all[i + 1] == rest[k + 1]);
            }
        }
        assert(all[0] == t[0]);
        assert(all.last() == rest.last());
    }
}

/// Joined groups read back as the groups.
proof fn lemma_join_groups(gs: Seq<u16>, v4_tail: bool)
    ensures
        groups_of(join_groups(gs), v4_tail) == Some(gs),
{
    if gs.len() == 0 {
        assert(gs =~= Seq::<u16>::empty());
    } else {
        lemma_join_colons(gs);
        lemma_join_pieces(gs);
        let p = crate::text::split_on(join_groups(gs), ':');
        assert forall|i: int| 0 <= i < gs.len() implies ipv4_of(#[trigger] p[i]) is None || i + 1
            < p.len() || !v4_tail by {
            assert(group_of(p[i]) == Some(gs[i]));
            lemma_group_is_no_ipv4(p[i]);
        }
        lemma_groups_append(p, gs, v4_tail);
        assert(p.skip(gs.len() as int) =~= Seq::<Seq<char>>::empty());
        assert(gs + Seq::<u16>::empty() =~= gs);
    }
}

proof fn lemma_join_pieces(gs: Seq<u16>)
    requires
        gs.len() >= 1,
    ensures
        crate::text::split_on(join_groups(gs), ':').len() == gs.len(),
        forall|i: int|
            0 <= i < gs.len() ==> group_of(crate::text::split_on(join_groups(gs), ':')[i]) == Some(
                #[trigger] gs[i],
            ),
    decreases gs.len(),
{
    let t = crate::text::hex_text(gs[0] as nat);
    lemma_group_text(gs[0]);
    if gs.len() == 1 {
        crate::text::lemma_split_on_single(t, ':');
    } else {
        let g1 = gs.drop_first();
        lemma_join_pieces(g1);
        crate::text::lemma_split_on_cons(t, join_groups(g1), ':');
        let p = crate::text::split_on(join_groups(gs), ':');
        let q = crate::text::split_on(join_groups(g1), ':');
        assert(p == seq![t] + q);
        assert forall|i: int| 0 <= i < gs.len() implies group_of(p[i]) == Some(#[trigger] gs[i]) by {
            if i > 0 {
                assert(p[i] == q[i - 1]);
                assert(group_of(q[i - 1]) == Some(g1[i - 1]));
            }
        }
    }
}

/// The first `::` of joined groups, `::` and more text is the one in the middle.
proof fn lemma_gap_found(head: Seq<u16>, rest: Seq<char>)
    ensures
        crate::text::find_text(join_groups(head) + seq![':', ':'] + rest, seq![':', ':']) == Some(
            join_groups(head).len() as int,
        ),
{
    let h = join_groups(head);
    let pat = seq![':', ':'];
    let s = h + pat + rest;
    let n = h.len() as int;
    if head.len() >= 1 {
        lemma_join_colons(head);
    }
    assert(crate::text::occurs_at(s, pat, n)) by {
        assert forall|k: int| 0 <= k < pat.len() implies s[n + k] == #[trigger] pat[k] by {
        }
    }
    assert forall|j: int| 0 <= j < n implies !#[trigger] crate::text::occurs_at(s, pat, j) by {
        if crate::text::occurs_at(s, pat, j) {
            assert(s[j + 0] == pat[0]);
            assert(s[j + 1] == pat[1]);
            assert(s[j] == h[j]);
            if j + 1 < n {
                assert(s[j + 1] == h[j + 1]);
                assert(!(h[j] == ':' && h[j + 1] == ':'));
            } else {
                assert(h[j] == h.last());
            }
        }
    }
    assert(crate::text::first_occurs_at(s, pat, n));
    crate::text::lemma_find_text(s, pat, n);
}

proof fn lemma_ffff()
    ensures
        group_of(seq!['f', 'f', 'f', 'f']) == Some(0xffffu16),
{
    let s = seq!['f', 'f', 'f', 'f'];
    reveal_with_fuel(crate::text::hex_value, 5);
    assert(s.drop_last() =~= seq!['f', 'f', 'f']);
    assert(s.drop_last().drop_last() =~= seq!['f', 'f']);
    assert(s.drop_last().drop_last().drop_last() =~= seq!['f']);
    assert(s.drop_last().drop_last().drop_last().drop_last() =~= Seq::<char>::empty());
    assert(crate::text::hex_value(s) == 0xffff);
}

/// The notation of a mapped IPv4 address behind the leading `::` reads as the last three groups.
proof fn lemma_mapped_tail(o: Seq<u8>)
    requires
        o.len() == 4,
    ensures
        groups_of(seq!['f', 'f', 'f', 'f'].push(':') + ipv4_text(o), true) == Some(
            seq![0xffffu16] + groups_of_octets(o),
        ),
{
    let v4 = ipv4_text(o);
    let ffff = seq!['f', 'f', 'f', 'f'];
    let tail = ffff.push(':') + v4;
    lemma_ipv4_text(o);
    lemma_ffff();
    assert(!ffff.contains(':'));
    crate::text::lemma_split_on_cons(ffff, v4, ':');
    crate::text::lemma_split_on_single(v4, ':');
    let p = crate::text::split_on(tail, ':');
    assert(p =~= seq![ffff, v4]);
    let gs = seq![0xffffu16];
    assert forall|i: int| 0 <= i < gs.len() implies group_of(p[i]) == Some(#[trigger] gs[i]) by {
    }
    lemma_groups_append(p, gs, true);
    assert(p.skip(1) =~= seq![v4]);
    assert(groups_of_pieces(seq![v4], true) == Some(groups_of_octets(o)));
}

proof fn lemma_ipv6_text_mapped(g: Seq<u16>)
    requires
        g.len() == 8,
        is_v4_mapped(g),
    ensures
        ipv6_of(ipv6_text(g)) == Some(g),
        ipv6_text(g).contains(':'),
{
    let s = ipv6_text(g);
    let o = mapped_octets(g);
    let tail = seq!['f', 'f', 'f', 'f'].push(':') + ipv4_text(o);
    let empty = Seq::<u16>::empty();
    assert(s =~= join_groups(empty) + seq![':', ':'] + tail);
    lemma_gap_found(empty, tail);
    lemma_mapped_tail(o);
    assert(s[0] == ':');
    assert(s.take(0) =~= Seq::<char>::empty());
    assert(s.skip(2) =~= tail);
    let t = seq![0xffffu16] + groups_of_octets(o);
    assert(g[0] == 0 && g[1] == 0 && g[2] == 0 && g[3] == 0 && g[4] == 0);
    assert((g[6] / 256) as u8 * 256 + (g[6] % 256) as u8 == g[6]);
    assert((g[7] / 256) as u8 * 256 + (g[7] % 256) as u8 == g[7]);
    assert(t =~= seq![0xffffu16, g[6], g[7]]);
    assert(fill_zeros(empty, t) =~= g);
}

proof fn lemma_ipv6_text_gap(g: Seq<u16>)
    requires
        g.len() == 8,
        !is_v4_mapped(g),
        exists|a: int, n: int| is_gap(g, a, n),
    ensures
        ipv6_of(ipv6_text(g)) == Some(g),
        ipv6_text(g).contains(':'),
{
    let s = ipv6_text(g);
    let (a, n) = choose|a: int, n: int| is_gap(g, a, n);
    let head = g.take(a);
    let tail = g.skip(a + n);
    let h = join_groups(head);
    lemma_gap_found(head, join_groups(tail));
    lemma_join_groups(head, false);
    lemma_join_groups(tail, true);
    assert(s.take(h.len() as int) =~= h);
    assert(s.skip(h.len() as int + 2) =~= join_groups(tail));
    assert(s[h.len() as int] == ':');
    assert(fill_zeros(head, tail) =~= g) by {
        assert forall|i: int| 0 <= i < 8 implies fill_zeros(head, tail)[i] == g[i] by {
            if a <= i < a + n {
                assert(g[i] == 0);
            }
        }
    }
}

proof fn lemma_ipv6_text_full(g: Seq<u16>)
    requires
        g.len() == 8,
        !is_v4_mapped(g),
        !(exists|a: int, n: int| is_gap(g, a, n)),
    ensures
        ipv6_of(ipv6_text(g)) == Some(g),
        ipv6_text(g).contains(':'),
{
    let s = ipv6_text(g);
    let pat = seq![':', ':'];
    lemma_join_colons(g);
    lemma_join_groups(g, true);
    assert(!crate::text::contains_text(s, pat)) by {
        if crate::text::contains_text(s, pat) {
            let i = choose|i: int| crate::text::occurs_at(s, pat, i);
            assert(s[i + 0] == pat[0]);
            assert(s[i + 1] == pat[1]);
            assert(!(s[i] == ':' && s[i + 1] == ':'));
        }
    }
    crate::text::lemma_find_text_none(s, pat);
    let t = crate::text::hex_text(g[0] as nat);
    assert(s == t.push(':') + join_groups(g.drop_first()));
    assert(s[t.len() as int] == ':');
}

proof fn lemma_ipv6_text(g: Seq<u16>)
    requires
        g.len() == 8,
    ensures
        ipv6_of(ipv6_text(g)) == Some(g),
        ipv6_text(g).contains(':'),
{
    if is_v4_mapped(g) {
        lemma_ipv6_text_mapped(g);
    } else if exists|a: int, n: int| is_gap(g, a, n) {
        lemma_ipv6_text_gap(g);
    } else {
        lemma_ipv6_text_full(g);
    }
}

/// An IPv4 notation starts with a digit and holds no colon.
pub proof fn lemma_ipv4_text_chars(o: Seq<u8>)
    requires
        o.len() == 4,
    ensures
        ipv4_text(o).len() > 0,
        crate::text::is_digit(ipv4_text(o)[0]),
        !ipv4_text(o).contains(':'),
{
    lemma_ipv4_text(o);
    let t0 = crate::text::decimal_text(o[0] as nat);
    crate::text::lemma_decimal_text(o[0] as nat);
    assert(ipv4_text(o)[0] == t0[0]);
    assert(crate::text::is_digit(t0[0]));
}

/// Whether `c` may stand in an IPv6 notation.
spec fn is_ipv6_char(c: char) -> bool {
    crate::text::is_hex_digit(c) || c == ':' || c == '.'
}

proof fn lemma_ipv4_chars(o: Seq<u8>)
    requires
        o.len() == 4,
    ensures
        forall|i: int| 0 <= i < ipv4_text(o).len() ==> is_ipv6_char(#[trigger] ipv4_text(o)[i]),
{
    let t0 = crate::text::decimal_text(o[0] as nat).push('.');
    let t1 = crate::text::decimal_text(o[1] as nat).push('.');
    let t2 = crate::text::decimal_text(o[2] as nat).push('.');
    let t3 = crate::text::decimal_text(o[3] as nat);
    crate::text::lemma_decimal_text(o[0] as nat);
    crate::text::lemma_decimal_text(o[1] as nat);
    crate::text::lemma_decimal_text(o[2] as nat);
    crate::text::lemma_decimal_text(o[3] as nat);
    assert forall|i: int| 0 <= i < t0.len() implies is_ipv6_char(#[trigger] t0[i]) by {
        if i < t0.len() - 1 {
            assert(crate::text::is_digit(t0.drop_last()[i]));
        }
    }
    assert forall|i: int| 0 <= i < t1.len() implies is_ipv6_char(#[trigger] t1[i]) by {
        if i < t1.len() - 1 {
            assert(crate::text::is_digit(t1.drop_last()[i]));
        }
    }
    assert forall|i: int| 0 <= i < t2.len() implies is_ipv6_char(#[trigger] t2[i]) by {
        if i < t2.len() - 1 {
            assert(crate::text::is_digit(t2.drop_last()[i]));
        }
    }
    let r2 = t2 + t3;
    let r1 = t1 + r2;
    assert(ipv4_text(o) == t0 + r1);
    assert(forall|i: int| 0 <= i < r2.len() ==> is_ipv6_char(#[trigger] r2[i]));
    assert(forall|i: int| 0 <= i < r1.len() ==> is_ipv6_char(#[trigger] r1[i]));
}

proof fn lemma_join_chars(gs: Seq<u16>)
    ensures
        forall|i: int|
            0 <= i < join_groups(gs).len() ==> is_ipv6_char(#[trigger] join_groups(gs)[i]),
    decreases gs.len(),
{
    if gs.len() > 0 {
        let t = crate::text::hex_text(gs[0] as nat);
        crate::text::lemma_hex_text(gs[0] as nat);
        assert(forall|i: int| 0 <= i < t.len() ==> is_ipv6_char(#[trigger] t[i]));
        if gs.len() > 1 {
            let rest = join_groups(gs.drop_first());
            lemma_join_chars(gs.drop_first());
            let all = t.push(':') + rest;
            assert forall|i: int| 0 <= i < all.len() implies is_ipv6_char(#[trigger] all[i]) by {
                if i < t.len() {
                    assert(all[i] == t[i]);
                } else if i > t.len() {
                    assert(all[i] == rest[i - t.len() - 1]);
                }
            }
        }
    }
}

/// An IPv6 notation holds neither a closing bracket nor a slash.
pub proof fn lemma_ipv6_text_chars(g: Seq<u16>)
    requires
        g.len() == 8,
    ensures
        forall|i: int|
            0 <= i < ipv6_text(g).len() ==> #[trigger] ipv6_text(g)[i] != ']' && ipv6_text(g)[i]
                != '/',
{
    let s = ipv6_text(g);
    if is_v4_mapped(g) {
        lemma_ipv4_chars(mapped_octets(g));
        let v4 = ipv4_text(mapped_octets(g));
        assert forall|i: int| 0 <= i < s.len() implies is_ipv6_char(#[trigger] s[i]) by {
            if i >= 7 {
                assert(s[i] == v4[i - 7]);
            }
        }
    } else if exists|a: int, n: int| is_gap(g, a, n) {
        let (a, n) = choose|a: int, n: int| is_gap(g, a, n);
        let h = join_groups(g.take(a));
        let t = join_groups(g.skip(a + n));
        lemma_join_chars(g.take(a));
        lemma_join_chars(g.skip(a + n));
        assert forall|i: int| 0 <= i < s.len() implies is_ipv6_char(#[trigger] s[i]) by {
            if i < h.len() {
                assert(s[i] == h[i]);
            } else if i >= h.len() + 2 {
                assert(s[i] == t[i - h.len() - 2]);
            }
        }
    } else {
        lemma_join_chars(g);
    }
    assert forall|i: int| 0 <= i < s.len() implies #[trigger] s[i] != ']' && s[i] != '/' by {
        assert(is_ipv6_char(s[i]));
    }
}

/// The notation of every address reads back as that address.
pub proof fn law_ip_text_reads_back(ip: IpView)
    requires
        is_address(ip),
    ensures
        ip_of(ip_text(ip)) == Some(ip),
{
    match ip {
        IpView::V4(octets) => lemma_ipv4_text(octets),
        IpView::V6(groups) => {
            lemma_ipv6_text(groups);
            lemma_colon_is_no_ipv4(ipv6_text(groups));
        },
    }
}

} // verus!
