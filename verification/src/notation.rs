//! What text notes which number, address or server, as relations between text and its parts.
//!
//! Each kind of notation is put together here from its parts: every text that is put together so
//! is read, as what its parts say, and no other text is.

use vstd::prelude::*;

use crate::ip::{
    fill_zeros, group_of, groups_of, groups_of_octets, groups_of_pieces, ip_of, ipv4_of, ipv6_of,
    octet_of, IpView,
};
use crate::text::{
    all_digits, all_hex_digits, decimal_text, decimal_value, hex_text, hex_value, is_digit,
    is_hex_digit, occurs_at, split_on,
};
use crate::transport::addr::{
    port_of, server_addr_of, server_addr_text, HostView, ServerAddrView,
};

verus! {

// ---------------------------------------------------------------------------------------------
// Digits and numbers
// ---------------------------------------------------------------------------------------------
/// The digits are the characters of the codes 48 to 57, in the order of their values; those above
/// nine have the codes from 97 on, and also those from 65 on.
pub proof fn law_digits_have_their_codes(c: char, d: nat)
    ensures
        is_digit(c) <==> 48 <= c as int <= 57,
        is_digit(c) ==> crate::text::digit_value(c) == c as int - 48,
        is_hex_digit(c) <==> 48 <= c as int <= 57 || 97 <= c as int <= 102 || 65 <= c as int <= 70,
        48 <= c as int <= 57 ==> crate::text::hex_digit_value(c) == c as int - 48,
        97 <= c as int <= 102 ==> crate::text::hex_digit_value(c) == c as int - 87,
        65 <= c as int <= 70 ==> crate::text::hex_digit_value(c) == c as int - 55,
        d < 10 ==> crate::text::digit_char(d) as int == 48 + d,
        d < 10 ==> crate::text::hex_digit_char(d) as int == 48 + d,
        10 <= d < 16 ==> crate::text::hex_digit_char(d) as int == 87 + d,
{
}

/// One more digit makes a number ten times, or sixteen times, as large, and adds its value.
pub proof fn law_digits_count_by_place(s: Seq<char>, c: char)
    ensures
        decimal_value(Seq::empty()) == 0,
        hex_value(Seq::empty()) == 0,
        48 <= c as int <= 57 ==> decimal_value(s.push(c)) == 10 * decimal_value(s) + (c as int
            - 48),
        48 <= c as int <= 57 ==> hex_value(s.push(c)) == 16 * hex_value(s) + (c as int - 48),
        97 <= c as int <= 102 ==> hex_value(s.push(c)) == 16 * hex_value(s) + (c as int - 87),
        65 <= c as int <= 70 ==> hex_value(s.push(c)) == 16 * hex_value(s) + (c as int - 55),
        all_digits(s.push(c)) <==> all_digits(s) && is_digit(c),
        all_hex_digits(s.push(c)) <==> all_hex_digits(s) && is_hex_digit(c),
{
    assert(s.push(c).drop_last() =~= s);
    assert(s.push(c).last() == c);
    if all_digits(s.push(c)) {
        assert forall|i: int| 0 <= i < s.len() implies is_digit(#[trigger] s[i]) by {
            assert(s[i] == s.push(c)[i]);
        }
        assert(is_digit(s.push(c)[s.len() as int]));
    }
    if all_hex_digits(s.push(c)) {
        assert forall|i: int| 0 <= i < s.len() implies is_hex_digit(#[trigger] s[i]) by {
            assert(s[i] == s.push(c)[i]);
        }
        assert(is_hex_digit(s.push(c)[s.len() as int]));
    }
}

/// A number is written as its last digit behind the number without it.
pub proof fn law_numbers_are_written_by_place(n: nat, z: int)
    ensures
        n < 10 ==> decimal_text(n).len() == 1 && decimal_text(n)[0] as int == 48 + n,
        n >= 10 ==> decimal_text(n).drop_last() == decimal_text(n / 10) && decimal_text(n).last()
            as int == 48 + n % 10,
        n < 16 ==> hex_text(n).len() == 1 && hex_text(n)[0] as int == (if n < 10 {
            48 + n
        } else {
            87 + n
        }),
        n >= 16 ==> hex_text(n).drop_last() == hex_text(n / 16) && hex_text(n).last() as int == (
        if n % 16 < 10 {
            48 + n % 16
        } else {
            87 + n % 16
        }),
        z >= 0 ==> crate::text::signed_decimal_text(z) == decimal_text(z as nat),
        z < 0 ==> crate::text::signed_decimal_text(z) == seq!['-'] + decimal_text((-z) as nat),
{
    if n >= 10 {
        assert(decimal_text(n).drop_last() =~= decimal_text(n / 10));
    }
    if n >= 16 {
        assert(hex_text(n).drop_last() =~= hex_text(n / 16));
    }
}

/// Digits without a leading zero are the shortest notation of the number that they stand for.
proof fn lemma_shortest(s: Seq<char>)
    requires
        s.len() >= 1,
        all_digits(s),
        s.len() > 1 ==> s[0] != '0',
    ensures
        decimal_text(decimal_value(s)) == s,
        s.len() > 1 ==> decimal_value(s) >= 10,
        s[0] != '0' ==> decimal_value(s) > 0,
    decreases s.len(),
{
    let t = s.drop_last();
    let d = crate::text::digit_value(s.last());
    assert(is_digit(s[s.len() - 1]));
    assert(d < 10);
    assert(s =~= t.push(s.last()));
    if s.len() == 1 {
        assert(t =~= Seq::<char>::empty());
        assert(decimal_value(t) == 0);
        assert(decimal_text(decimal_value(s)) =~= s);
    } else {
        assert forall|i: int| 0 <= i < t.len() implies is_digit(#[trigger] t[i]) by {
            assert(t[i] == s[i]);
        }
        assert(t[0] == s[0]);
        lemma_shortest(t);
        let v = decimal_value(t);
        assert(decimal_value(s) == v * 10 + d);
        assert((v * 10 + d) / 10 == v && (v * 10 + d) % 10 == d);
        assert(decimal_text(decimal_value(s)) =~= s);
    }
}

// ---------------------------------------------------------------------------------------------
// Pieces
// ---------------------------------------------------------------------------------------------
/// The pieces, with a separator between every two.
pub open spec fn joined_by(pieces: Seq<Seq<char>>, sep: char) -> Seq<char>
    decreases pieces.len(),
{
    if pieces.len() == 0 {
        Seq::empty()
    } else if pieces.len() == 1 {
        pieces[0]
    } else {
        pieces[0].push(sep) + joined_by(pieces.drop_first(), sep)
    }
}

/// Whether no piece holds the separator.
pub open spec fn free_of(pieces: Seq<Seq<char>>, sep: char) -> bool {
    forall|i: int| 0 <= i < pieces.len() ==> !(#[trigger] pieces[i]).contains(sep)
}

/// Pieces that are joined by a separator, which none of them holds, are what the text splits into.
pub proof fn law_joined_pieces_split(pieces: Seq<Seq<char>>, sep: char)
    requires
        pieces.len() >= 1,
        free_of(pieces, sep),
    ensures
        split_on(joined_by(pieces, sep), sep) == pieces,
    decreases pieces.len(),
{
    assert(!pieces[0].contains(sep));
    if pieces.len() == 1 {
        crate::text::lemma_split_on_single(pieces[0], sep);
        assert(seq![pieces[0]] =~= pieces);
    } else {
        let rest = pieces.drop_first();
        assert forall|i: int| 0 <= i < rest.len() implies !(#[trigger] rest[i]).contains(sep) by {
            assert(rest[i] == pieces[i + 1]);
        }
        law_joined_pieces_split(rest, sep);
        crate::text::lemma_split_on_cons(pieces[0], joined_by(rest, sep), sep);
        assert(seq![pieces[0]] + rest =~= pieces);
    }
}

/// What a text splits into are pieces that hold no separator, and that joined by it are the text.
pub proof fn law_split_pieces_join(s: Seq<char>, sep: char)
    ensures
        split_on(s, sep).len() >= 1,
        free_of(split_on(s, sep), sep),
        joined_by(split_on(s, sep), sep) == s,
    decreases s.len(),
{
    s.index_of_first_ensures(sep);
    let p = split_on(s, sep);
    match s.index_of_first(sep) {
        Some(i) => {
            let a = s.take(i);
            let rest = s.skip(i + 1);
            law_split_pieces_join(rest, sep);
            let q = split_on(rest, sep);
            assert(p == seq![a] + q);
            assert(p.drop_first() =~= q);
            assert(!a.contains(sep)) by {
                if a.contains(sep) {
                    let k = choose|k: int| 0 <= k < a.len() && a[k] == sep;
                    assert(s[k] == sep);
                }
            }
            assert forall|k: int| 0 <= k < p.len() implies !(#[trigger] p[k]).contains(sep) by {
                if k > 0 {
                    assert(p[k] == q[k - 1]);
                }
            }
            assert(joined_by(p, sep) == a.push(sep) + rest);
            assert(a.push(sep) + rest =~= s);
        },
        None => {
            assert(p =~= seq![s]);
        },
    }
}

/// What is found is the text itself, and it does not stand further in front; what is not found
/// stands nowhere.
pub proof fn law_the_first_text_is_found(s: Seq<char>, pat: Seq<char>, i: int, j: int)
    ensures
        crate::text::find_text(s, pat) == Some(i) ==> 0 <= i && i + pat.len() <= s.len()
            && s.subrange(i, i + pat.len()) == pat,
        crate::text::find_text(s, pat) == Some(i) && 0 <= j < i ==> s.subrange(j, j + pat.len())
            != pat,
        crate::text::find_text(s, pat) is None && 0 <= j && j + pat.len() <= s.len()
            ==> s.subrange(j, j + pat.len()) != pat,
        crate::text::contains_text(s, pat) <==> crate::text::find_text(s, pat) is Some,
{
    match crate::text::find_text(s, pat) {
        Some(f) => {
            assert(crate::text::first_occurs_at(s, pat, f));
            assert(s.subrange(f, f + pat.len()) =~= pat) by {
                assert forall|k: int| 0 <= k < pat.len() implies s.subrange(f, f + pat.len())[k]
                    == #[trigger] pat[k] by {}
            }
            if 0 <= j < f && s.subrange(j, j + pat.len()) == pat {
                assert forall|k: int| 0 <= k < pat.len() implies s[j + k] == #[trigger] pat[k] by {
                    assert(s.subrange(j, j + pat.len())[k] == pat[k]);
                }
                assert(occurs_at(s, pat, j));
            }
        },
        None => {
            if crate::text::contains_text(s, pat) {
                let k = choose|k: int| occurs_at(s, pat, k);
                lemma_some_is_first(s, pat, k);
            }
            if 0 <= j && j + pat.len() <= s.len() && s.subrange(j, j + pat.len()) == pat {
                assert forall|k: int| 0 <= k < pat.len() implies s[j + k] == #[trigger] pat[k] by {
                    assert(s.subrange(j, j + pat.len())[k] == pat[k]);
                }
                assert(occurs_at(s, pat, j));
                lemma_some_is_first(s, pat, j);
            }
        },
    }
}

/// A text that stands at an index parts what stands before it from what stands behind it.
proof fn lemma_text_around(s: Seq<char>, pat: Seq<char>, i: int)
    requires
        occurs_at(s, pat, i),
    ensures
        s == s.take(i) + pat + s.skip(i + pat.len()),
{
    let t = s.take(i) + pat + s.skip(i + pat.len());
    assert forall|k: int| 0 <= k < s.len() implies s[k] == t[k] by {
        if i <= k < i + pat.len() {
            assert(s[i + (k - i)] == pat[k - i]);
        }
    }
    assert(s =~= t);
}

/// Where a text stands somewhere, it stands somewhere first.
proof fn lemma_some_is_first(s: Seq<char>, pat: Seq<char>, i: int)
    requires
        occurs_at(s, pat, i),
    ensures
        exists|k: int| crate::text::first_occurs_at(s, pat, k),
    decreases i,
{
    if exists|j: int| 0 <= j < i && #[trigger] occurs_at(s, pat, j) {
        let j = choose|j: int| 0 <= j < i && #[trigger] occurs_at(s, pat, j);
        lemma_some_is_first(s, pat, j);
    } else {
        assert(crate::text::first_occurs_at(s, pat, i));
    }
}

// ---------------------------------------------------------------------------------------------
// IP addresses
// ---------------------------------------------------------------------------------------------
/// The notation of an octet is its shortest decimal notation, and no other text is one.
pub proof fn law_octets_are_written_one_way(s: Seq<char>, v: u8)
    ensures
        octet_of(s) == Some(v) <==> s == decimal_text(v as nat),
{
    if octet_of(s) == Some(v) {
        lemma_shortest(s);
    } else if s == decimal_text(v as nat) {
        crate::text::lemma_decimal_text(v as nat);
        crate::text::lemma_decimal_text_short(v as nat);
        crate::ip::lemma_octet_text(v);
    }
}

/// Any one to four hexadecimal digits, of either case, note the group of their value, zeros in
/// front included; no other text notes a group.
pub proof fn law_groups_are_up_to_four_digits(s: Seq<char>)
    ensures
        1 <= s.len() <= 4 && all_hex_digits(s) ==> hex_value(s) < 0x1_0000 && group_of(s) == Some(
            hex_value(s) as u16,
        ),
        !(1 <= s.len() <= 4 && all_hex_digits(s)) ==> group_of(s) is None,
{
    if 1 <= s.len() <= 4 && all_hex_digits(s) {
        crate::text::lemma_hex_value_bound(s);
    }
}

/// A zero in front of fewer than four digits leaves the group that they note as it is.
pub proof fn law_zeros_in_front_of_a_group(s: Seq<char>)
    requires
        s.len() < 4,
        group_of(s) is Some,
    ensures
        group_of(seq!['0'] + s) == group_of(s),
{
    let t = seq!['0'] + s;
    lemma_zero_in_front(s);
    assert forall|i: int| 0 <= i < t.len() implies is_hex_digit(#[trigger] t[i]) by {
        if i > 0 {
            assert(t[i] == s[i - 1]);
        }
    }
    law_groups_are_up_to_four_digits(s);
    law_groups_are_up_to_four_digits(t);
}

proof fn lemma_zero_in_front(s: Seq<char>)
    ensures
        hex_value(seq!['0'] + s) == hex_value(s),
    decreases s.len(),
{
    let t = seq!['0'] + s;
    if s.len() == 0 {
        assert(t.drop_last() =~= Seq::<char>::empty());
        assert(t.last() == '0');
        reveal_with_fuel(hex_value, 2);
    } else {
        assert(t.drop_last() =~= seq!['0'] + s.drop_last());
        assert(t.last() == s.last());
        lemma_zero_in_front(s.drop_last());
    }
}

/// An IPv4 address is four octets joined by points, and nothing else is.
pub proof fn law_ipv4_is_four_octets(p: Seq<Seq<char>>)
    requires
        p.len() >= 1,
        free_of(p, '.'),
    ensures
        ipv4_of(joined_by(p, '.')) is Some <==> p.len() == 4 && (forall|i: int|
            0 <= i < 4 ==> octet_of(#[trigger] p[i]) is Some),
        ipv4_of(joined_by(p, '.')) matches Some(o) ==> o.len() == 4 && (forall|i: int|
            0 <= i < 4 ==> octet_of(#[trigger] p[i]) == Some(o[i])),
{
    law_joined_pieces_split(p, '.');
    if p.len() == 4 {
        if forall|i: int| 0 <= i < 4 ==> octet_of(#[trigger] p[i]) is Some {
            assert(octet_of(p[0]) is Some && octet_of(p[1]) is Some && octet_of(p[2]) is Some
                && octet_of(p[3]) is Some);
        }
    }
}

/// Whether each of the pieces `p` notes the group of the same index.
pub open spec fn note_groups(p: Seq<Seq<char>>, g: Seq<u16>) -> bool {
    &&& p.len() == g.len()
    &&& forall|i: int| 0 <= i < p.len() ==> group_of(#[trigger] p[i]) == Some(g[i])
}

/// Whether the pieces `p` note the groups `g` such as an IPv6 address may end in: the last piece
/// may be an IPv4 address, which makes up two groups.
pub open spec fn note_last_groups(p: Seq<Seq<char>>, g: Seq<u16>) -> bool {
    ||| note_groups(p, g)
    ||| {
        &&& p.len() >= 1
        &&& g.len() == p.len() + 1
        &&& note_groups(p.drop_last(), g.take(p.len() - 1))
        &&& ipv4_of(p.last()) matches Some(o) && {
            &&& o.len() == 4
            &&& g[p.len() - 1] == o[0] * 256 + o[1]
            &&& g[p.len() as int] == o[2] * 256 + o[3]
        }
    }
}

/// An IPv4 address has four octets.
proof fn lemma_ipv4_len(s: Seq<char>)
    ensures
        ipv4_of(s) matches Some(o) ==> o.len() == 4,
{
}

proof fn lemma_notes_are_read(p: Seq<Seq<char>>, g: Seq<u16>, v4_tail: bool)
    requires
        note_groups(p, g) || v4_tail && note_last_groups(p, g),
    ensures
        groups_of_pieces(p, v4_tail) == Some(g),
{
    if note_groups(p, g) {
        assert forall|i: int| 0 <= i < g.len() implies group_of(p[i]) == Some(#[trigger] g[i]) by {
            assert(group_of(p[i]) == Some(g[i]));
        }
        assert forall|i: int| 0 <= i < g.len() implies ipv4_of(#[trigger] p[i]) is None || i + 1
            < p.len() || !v4_tail by {
            crate::ip::lemma_group_is_no_ipv4(p[i]);
        }
        crate::ip::lemma_groups_append(p, g, v4_tail);
        assert(p.skip(g.len() as int) =~= Seq::<Seq<char>>::empty());
        assert(g + Seq::<u16>::empty() =~= g);
    } else {
        let q = p.drop_last();
        let h = g.take(p.len() - 1);
        assert forall|i: int| 0 <= i < h.len() implies group_of(p[i]) == Some(#[trigger] h[i]) by {
            assert(group_of(q[i]) == Some(h[i]));
        }
        assert forall|i: int| 0 <= i < h.len() implies ipv4_of(#[trigger] p[i]) is None || i + 1
            < p.len() || !v4_tail by {}
        crate::ip::lemma_groups_append(p, h, v4_tail);
        let last = p.skip(h.len() as int);
        assert(last =~= seq![p.last()]);
        let o = ipv4_of(p.last())->0;
        assert(groups_of_pieces(last, true) == Some(groups_of_octets(o)));
        assert(h + groups_of_octets(o) =~= g);
    }
}

proof fn lemma_read_pieces_note(p: Seq<Seq<char>>, v4_tail: bool)
    requires
        groups_of_pieces(p, v4_tail) is Some,
    ensures
        v4_tail ==> note_last_groups(p, groups_of_pieces(p, v4_tail)->0),
        !v4_tail ==> note_groups(p, groups_of_pieces(p, v4_tail)->0),
    decreases p.len(),
{
    let g = groups_of_pieces(p, v4_tail)->0;
    if p.len() == 0 {
        assert(note_groups(p, g));
    } else if p.len() == 1 && v4_tail && ipv4_of(p[0]) is Some {
        lemma_ipv4_len(p[0]);
        assert(note_groups(p.drop_last(), g.take(0)));
    } else {
        let q = p.drop_first();
        lemma_read_pieces_note(q, v4_tail);
        let h = groups_of_pieces(q, v4_tail)->0;
        assert(g == seq![group_of(p[0])->0] + h);
        if note_groups(q, h) {
            assert forall|i: int| 0 <= i < p.len() implies group_of(#[trigger] p[i]) == Some(
                g[i],
            ) by {
                if i > 0 {
                    assert(p[i] == q[i - 1]);
                    assert(group_of(q[i - 1]) == Some(h[i - 1]));
                }
            }
        } else {
            assert(p.last() == q.last());
            let pd = p.drop_last();
            let gt = g.take(p.len() - 1);
            let qd = q.drop_last();
            let ht = h.take(q.len() - 1);
            assert forall|i: int| 0 <= i < pd.len() implies group_of(#[trigger] pd[i]) == Some(
                gt[i],
            ) by {
                if i > 0 {
                    assert(pd[i] == qd[i - 1]);
                    assert(group_of(qd[i - 1]) == Some(ht[i - 1]));
                }
            }
        }
    }
}

/// A text that is joined from pieces, none of which is empty, holds no two colons in a row.
proof fn lemma_no_double_colon(p: Seq<Seq<char>>)
    requires
        p.len() >= 1,
        free_of(p, ':'),
        forall|i: int| 0 <= i < p.len() ==> (#[trigger] p[i]).len() > 0,
    ensures
        joined_by(p, ':').len() > 0,
        joined_by(p, ':')[0] != ':',
        joined_by(p, ':').last() != ':',
        forall|i: int|
            0 <= i < joined_by(p, ':').len() - 1 ==> !(#[trigger] joined_by(p, ':')[i] == ':'
                && joined_by(p, ':')[i + 1] == ':'),
    decreases p.len(),
{
    let a = p[0];
    assert(!a.contains(':') && a.len() > 0);
    assert forall|k: int| 0 <= k < a.len() implies a[k] != ':' by {
        assert(a.contains(a[k]));
    }
    let s = joined_by(p, ':');
    if p.len() > 1 {
        let q = p.drop_first();
        assert forall|i: int| 0 <= i < q.len() implies !(#[trigger] q[i]).contains(':')
            && q[i].len() > 0 by {
            assert(q[i] == p[i + 1]);
        }
        lemma_no_double_colon(q);
        let t = joined_by(q, ':');
        let n = a.len() as int;
        assert(s == a.push(':') + t);
        assert(s[0] == a[0]);
        assert(s.last() == t.last());
        assert forall|i: int| 0 <= i < s.len() - 1 implies !(#[trigger] s[i] == ':' && s[i + 1]
            == ':') by {
            if i < n {
                assert(s[i] == a[i]);
            } else if i == n {
                assert(s[i + 1] == t[0]);
            } else {
                assert(s[i] == t[i - n - 1] && s[i + 1] == t[i - n]);
            }
        }
    }
}

/// The pieces that note groups are not empty and hold no colon.
proof fn lemma_group_pieces(p: Seq<Seq<char>>, g: Seq<u16>)
    requires
        note_groups(p, g),
    ensures
        free_of(p, ':'),
        forall|i: int| 0 <= i < p.len() ==> (#[trigger] p[i]).len() > 0,
{
    assert forall|i: int| 0 <= i < p.len() implies !(#[trigger] p[i]).contains(':') && p[i].len()
        > 0 by {
        assert(group_of(p[i]) == Some(g[i]));
        if p[i].contains(':') {
            let k = choose|k: int| 0 <= k < p[i].len() && p[i][k] == ':';
            assert(is_hex_digit(p[i][k]));
        }
    }
}

/// The pieces that note the last groups are not empty and hold no colon.
proof fn lemma_last_group_pieces(p: Seq<Seq<char>>, g: Seq<u16>)
    requires
        note_last_groups(p, g),
    ensures
        free_of(p, ':'),
        forall|i: int| 0 <= i < p.len() ==> (#[trigger] p[i]).len() > 0,
{
    if note_groups(p, g) {
        lemma_group_pieces(p, g);
    } else {
        let q = p.drop_last();
        lemma_group_pieces(q, g.take(p.len() - 1));
        assert forall|i: int| 0 <= i < p.len() implies !(#[trigger] p[i]).contains(':')
            && p[i].len() > 0 by {
            if i < q.len() {
                assert(p[i] == q[i]);
            } else {
                if p[i].contains(':') {
                    crate::ip::lemma_colon_is_no_ipv4(p[i]);
                }
                if p[i].len() == 0 {
                    law_split_pieces_join(p[i], '.');
                    assert(!p[i].contains('.'));
                    crate::text::lemma_split_on_single(p[i], '.');
                }
            }
        }
    }
}

/// Eight groups joined by colons note an IPv6 address, and so do six behind which an IPv4 address
/// stands for the other two.
pub proof fn law_eight_groups_are_read(p: Seq<Seq<char>>, g: Seq<u16>)
    requires
        note_last_groups(p, g),
        g.len() == 8,
    ensures
        ipv6_of(joined_by(p, ':')) == Some(g),
{
    let s = joined_by(p, ':');
    lemma_last_group_pieces(p, g);
    lemma_no_double_colon(p);
    law_joined_pieces_split(p, ':');
    lemma_notes_are_read(p, g, true);
    let pat = seq![':', ':'];
    assert(!crate::text::contains_text(s, pat)) by {
        if crate::text::contains_text(s, pat) {
            let i = choose|i: int| occurs_at(s, pat, i);
            assert(s[i + 0] == pat[0] && s[i + 1] == pat[1]);
            assert(s[i] == ':');
        }
    }
    crate::text::lemma_find_text_none(s, pat);
}

/// Groups, two colons and groups note an IPv6 address if at least one group is left out: the first
/// ones, then zeros, then the last ones, eight in all. An IPv4 address may stand for the last two.
pub proof fn law_two_colons_stand_for_zeros(
    h: Seq<Seq<char>>,
    head: Seq<u16>,
    t: Seq<Seq<char>>,
    tail: Seq<u16>,
)
    requires
        note_groups(h, head),
        note_last_groups(t, tail),
        head.len() + tail.len() <= 7,
    ensures
        ipv6_of(joined_by(h, ':') + seq![':', ':'] + joined_by(t, ':')) matches Some(g) && {
            &&& g.len() == 8
            &&& g.take(head.len() as int) == head
            &&& g.skip(8 - tail.len()) == tail
            &&& forall|i: int| head.len() <= i < 8 - tail.len() ==> #[trigger] g[i] == 0
        },
{
    let hs = joined_by(h, ':');
    let ts = joined_by(t, ':');
    let s = hs + seq![':', ':'] + ts;
    let n = hs.len() as int;
    lemma_group_pieces(h, head);
    if h.len() > 0 {
        lemma_no_double_colon(h);
    }
    lemma_first_two_colons(hs, ts);
    assert(s.take(n) =~= hs);
    assert(s.skip(n + 2) =~= ts);
    lemma_joined_groups(h, head, false);
    lemma_joined_groups(t, tail, true);
    lemma_filled(head, tail);
    assert(ipv6_of(s) == Some(fill_zeros(head, tail)));
}

/// Two colons behind a text that holds no two in a row, and ends in none, are the first ones.
proof fn lemma_first_two_colons(hs: Seq<char>, ts: Seq<char>)
    requires
        hs.len() > 0 ==> hs.last() != ':',
        forall|i: int| 0 <= i < hs.len() - 1 ==> !(#[trigger] hs[i] == ':' && hs[i + 1] == ':'),
    ensures
        crate::text::find_text(hs + seq![':', ':'] + ts, seq![':', ':']) == Some(hs.len() as int),
{
    let pat = seq![':', ':'];
    let s = hs + pat + ts;
    let n = hs.len() as int;
    assert forall|k: int| 0 <= k < pat.len() implies s[n + k] == #[trigger] pat[k] by {}
    assert(occurs_at(s, pat, n));
    assert forall|j: int| 0 <= j < n implies !#[trigger] occurs_at(s, pat, j) by {
        if occurs_at(s, pat, j) {
            assert(s[j + 0] == pat[0] && s[j + 1] == pat[1]);
            assert(s[j] == hs[j]);
            if j + 1 < n {
                assert(s[j + 1] == hs[j + 1]);
            } else {
                assert(hs[j] == hs.last());
            }
        }
    }
    crate::text::lemma_find_text(s, pat, n);
}

proof fn lemma_joined_groups(p: Seq<Seq<char>>, g: Seq<u16>, v4_tail: bool)
    requires
        note_groups(p, g) || v4_tail && note_last_groups(p, g),
    ensures
        groups_of(joined_by(p, ':'), v4_tail) == Some(g),
{
    if p.len() == 0 {
        assert(g =~= Seq::<u16>::empty());
    } else {
        lemma_last_group_pieces(p, g);
        lemma_no_double_colon(p);
        law_joined_pieces_split(p, ':');
        lemma_notes_are_read(p, g, v4_tail);
    }
}

/// Whether `s` is eight groups joined by colons.
pub open spec fn is_full(s: Seq<char>, g: Seq<u16>) -> bool {
    exists|p: Seq<Seq<char>>| #[trigger]
        note_last_groups(p, g) && s == joined_by(p, ':') && g.len() == 8
}

/// Whether `s` is groups, two colons and groups, which leave out at least one.
pub open spec fn is_gapped(s: Seq<char>, g: Seq<u16>) -> bool {
    exists|h: Seq<Seq<char>>, head: Seq<u16>, t: Seq<Seq<char>>, tail: Seq<u16>|
        {
            &&& #[trigger] note_groups(h, head)
            &&& #[trigger] note_last_groups(t, tail)
            &&& head.len() + tail.len() <= 7
            &&& s == joined_by(h, ':') + seq![':', ':'] + joined_by(t, ':')
            &&& g.len() == 8
            &&& g.take(head.len() as int) == head
            &&& g.skip(8 - tail.len()) == tail
        }
}

proof fn lemma_groups_of_parts(s: Seq<char>, v4_tail: bool) -> (p: Seq<Seq<char>>)
    requires
        groups_of(s, v4_tail) is Some,
    ensures
        s == joined_by(p, ':'),
        v4_tail ==> note_last_groups(p, groups_of(s, v4_tail)->0),
        !v4_tail ==> note_groups(p, groups_of(s, v4_tail)->0),
{
    if s.len() == 0 {
        let p = Seq::<Seq<char>>::empty();
        assert(note_groups(p, groups_of(s, v4_tail)->0));
        assert(s =~= joined_by(p, ':'));
        p
    } else {
        let p = split_on(s, ':');
        law_split_pieces_join(s, ':');
        lemma_read_pieces_note(p, v4_tail);
        p
    }
}

/// The groups that fill up eight with zeros between them.
proof fn lemma_filled(head: Seq<u16>, tail: Seq<u16>)
    requires
        head.len() + tail.len() <= 7,
    ensures
        fill_zeros(head, tail).len() == 8,
        fill_zeros(head, tail).take(head.len() as int) == head,
        fill_zeros(head, tail).skip(8 - tail.len()) == tail,
        forall|i: int|
            head.len() <= i < 8 - tail.len() ==> #[trigger] fill_zeros(head, tail)[i] == 0,
{
    let g = fill_zeros(head, tail);
    assert(g.take(head.len() as int) =~= head);
    assert(g.skip(8 - tail.len()) =~= tail);
}

/// What is read from a text in which two colons first stand at `i`.
proof fn lemma_gap_is_read(s: Seq<char>, i: int)
    requires
        crate::text::find_text(s, seq![':', ':']) == Some(i),
        ipv6_of(s) is Some,
    ensures
        groups_of(s.take(i), false) matches Some(head) && (groups_of(s.skip(i + 2), true) matches
            Some(tail) && head.len() + tail.len() <= 7 && ipv6_of(s) == Some(fill_zeros(head, tail))),
{
}

#[verifier::rlimit(40)]
proof fn lemma_read_with_gap(s: Seq<char>, i: int)
    requires
        crate::text::find_text(s, seq![':', ':']) == Some(i),
        ipv6_of(s) is Some,
    ensures
        is_gapped(s, ipv6_of(s)->0),
{
    let pat = seq![':', ':'];
    let hs = s.take(i);
    let ts = s.skip(i + 2);
    lemma_gap_is_read(s, i);
    let head = groups_of(hs, false)->0;
    let tail = groups_of(ts, true)->0;
    let h = lemma_groups_of_parts(hs, false);
    let t = lemma_groups_of_parts(ts, true);
    assert(s == hs + pat + ts) by {
        assert(crate::text::first_occurs_at(s, pat, i));
        lemma_text_around(s, pat, i);
    }
    lemma_filled(head, tail);
    assert(note_groups(h, head) && note_last_groups(t, tail));
}

/// No text notes an IPv6 address but eight groups joined by colons, or groups with two colons for
/// those left out.
pub proof fn law_no_other_text_is_ipv6(s: Seq<char>, g: Seq<u16>)
    requires
        ipv6_of(s) == Some(g),
    ensures
        is_full(s, g) || is_gapped(s, g),
{
    match crate::text::find_text(s, seq![':', ':']) {
        Some(i) => {
            lemma_read_with_gap(s, i);
        },
        None => {
            let p = lemma_groups_of_parts(s, true);
            assert(note_last_groups(p, g));
            assert(is_full(s, g));
        },
    }
}

/// A text notes an IPv4 address if it is one, and else an IPv6 address if it is one.
pub proof fn law_ip_is_of_either_kind(s: Seq<char>)
    ensures
        ip_of(s) == (match (ipv4_of(s), ipv6_of(s)) {
            (Some(octets), _) => Some(IpView::V4(octets)),
            (None, Some(groups)) => Some(IpView::V6(groups)),
            (None, None) => None,
        }),
{
}

/// A zero in front of a group of fewer than four digits leaves the address that is read as it is.
pub proof fn law_zeros_in_front_leave_the_address(p: Seq<Seq<char>>, g: Seq<u16>, i: int)
    requires
        note_groups(p, g),
        g.len() == 8,
        0 <= i < 8,
        p[i].len() < 4,
    ensures
        ipv6_of(joined_by(p.update(i, seq!['0'] + p[i]), ':')) == ipv6_of(joined_by(p, ':')),
{
    let q = p.update(i, seq!['0'] + p[i]);
    assert(group_of(p[i]) == Some(g[i]));
    law_zeros_in_front_of_a_group(p[i]);
    assert forall|k: int| 0 <= k < q.len() implies group_of(#[trigger] q[k]) == Some(g[k]) by {
        assert(group_of(p[k]) == Some(g[k]));
    }
    law_eight_groups_are_read(p, g);
    law_eight_groups_are_read(q, g);
}

// ---------------------------------------------------------------------------------------------
// Printing addresses
// ---------------------------------------------------------------------------------------------
/// The hexadecimal notations of the groups.
pub open spec fn hex_texts(g: Seq<u16>) -> Seq<Seq<char>> {
    g.map_values(|x: u16| hex_text(x as nat))
}

/// The decimal notations of the octets.
pub open spec fn decimal_texts(o: Seq<u8>) -> Seq<Seq<char>> {
    o.map_values(|x: u8| decimal_text(x as nat))
}

/// Whether the groups from index `a` up to `b` are all zero.
pub open spec fn zeros_between(g: Seq<u16>, a: int, b: int) -> bool {
    0 <= a <= b <= g.len() && forall|i: int| a <= i < b ==> #[trigger] g[i] == 0
}

proof fn lemma_groups_are_joined(g: Seq<u16>)
    ensures
        crate::ip::join_groups(g) == joined_by(hex_texts(g), ':'),
    decreases g.len(),
{
    if g.len() > 1 {
        lemma_groups_are_joined(g.drop_first());
        assert(hex_texts(g).drop_first() =~= hex_texts(g.drop_first()));
    }
}

/// An IPv4 address is written as its octets in decimal notation, joined by points.
pub proof fn law_ipv4_is_written_in_decimal(o: Seq<u8>)
    requires
        o.len() == 4,
    ensures
        crate::ip::ip_text(IpView::V4(o)) == joined_by(decimal_texts(o), '.'),
{
    let t = decimal_texts(o);
    reveal_with_fuel(joined_by, 5);
    assert(t.drop_first()[0] == t[1]);
    assert(t.drop_first().drop_first()[0] == t[2]);
    assert(t.drop_first().drop_first().drop_first()[0] == t[3]);
}

/// The longest run of two or more zero groups, and of those of the same length the first, is
/// written as two colons, unless the address is a mapped IPv4 address.
pub proof fn law_longest_zeros_are_left_out(g: Seq<u16>, a: int, b: int)
    requires
        g.len() == 8,
        !(zeros_between(g, 0, 5) && g[5] == 0xffff),
        zeros_between(g, a, b),
        b - a >= 2,
        forall|c: int, d: int| #[trigger]
            zeros_between(g, c, d) ==> d - c < b - a || d - c == b - a && a <= c,
    ensures
        crate::ip::ip_text(IpView::V6(g)) == joined_by(hex_texts(g.take(a)), ':') + seq![':', ':']
            + joined_by(hex_texts(g.skip(b)), ':'),
{
    lemma_groups_are_joined(g.take(a));
    lemma_groups_are_joined(g.skip(b));
    let n = b - a;
    if crate::ip::is_v4_mapped(g) {
        assert(zeros_between(g, 0, 5));
    }
    assert(crate::ip::is_gap(g, a, n)) by {
        assert forall|c: int, m: int| #[trigger] crate::ip::zero_run(g, c, m) implies m < n || (m
            == n && a <= c) by {
            assert(zeros_between(g, c, c + m));
        }
    }
    let (x, y) = choose|x: int, y: int| crate::ip::is_gap(g, x, y);
    assert(crate::ip::is_gap(g, x, y));
    assert(zeros_between(g, x, x + y));
    assert(crate::ip::zero_run(g, a, n));
    assert(x == a && y == n);
}

/// An address without two zero groups in a row is written as all of its groups, joined by colons.
pub proof fn law_lone_zeros_are_written(g: Seq<u16>)
    requires
        g.len() == 8,
        forall|i: int| 0 <= i < 7 ==> !(#[trigger] g[i] == 0 && g[i + 1] == 0),
    ensures
        crate::ip::ip_text(IpView::V6(g)) == joined_by(hex_texts(g), ':'),
{
    lemma_groups_are_joined(g);
    assert(!(g[0] == 0 && g[1] == 0));
    assert forall|a: int, n: int| !crate::ip::is_gap(g, a, n) by {
        if crate::ip::is_gap(g, a, n) {
            assert(g[a] == 0 && g[a + 1] == 0);
        }
    }
}

/// A mapped IPv4 address is written with its octets in decimal notation.
pub proof fn law_mapped_addresses_end_in_octets(o: Seq<u8>)
    requires
        o.len() == 4,
    ensures
        crate::ip::ip_text(
            IpView::V6(
                seq![
                    0u16,
                    0u16,
                    0u16,
                    0u16,
                    0u16,
                    0xffffu16,
                    (o[0] * 256 + o[1]) as u16,
                    (o[2] * 256 + o[3]) as u16,
                ],
            ),
        ) == seq![':', ':', 'f', 'f', 'f', 'f', ':'] + joined_by(decimal_texts(o), '.'),
{
    law_ipv4_is_written_in_decimal(o);
    let g = seq![
        0u16,
        0u16,
        0u16,
        0u16,
        0u16,
        0xffffu16,
        (o[0] * 256 + o[1]) as u16,
        (o[2] * 256 + o[3]) as u16,
    ];
    assert(crate::ip::is_v4_mapped(g));
    assert(g[6] / 256 == o[0] && g[6] % 256 == o[1]);
    assert(g[7] / 256 == o[2] && g[7] % 256 == o[3]);
    assert(crate::ip::mapped_octets(g) =~= o);
}

// ---------------------------------------------------------------------------------------------
// Server addresses
// ---------------------------------------------------------------------------------------------
/// A port is any decimal digits for at most 65535, zeros in front included, and a plus sign may
/// stand before them; nothing else is one.
pub proof fn law_ports_are_decimal(d: Seq<char>, s: Seq<char>)
    ensures
        d.len() > 0 && all_digits(d) && decimal_value(d) <= 65535 ==> port_of(d) == Some(
            decimal_value(d) as u16,
        ) && port_of(seq!['+'] + d) == Some(decimal_value(d) as u16),
        port_of(s) matches Some(port) ==> exists|x: Seq<char>|
            #[trigger] all_digits(x) && x.len() > 0 && decimal_value(x) == port && (s == x || s
                == seq!['+'] + x),
{
    if d.len() > 0 && all_digits(d) {
        assert(is_digit(d[0]));
        assert((seq!['+'] + d).skip(1) =~= d);
    }
    if port_of(s) is Some {
        if s[0] == '+' {
            let x = s.skip(1);
            assert(s =~= seq!['+'] + x);
            assert(all_digits(x));
        } else {
            assert(all_digits(s));
        }
    }
}

/// The characters of a port.
proof fn lemma_port_chars(s: Seq<char>)
    requires
        port_of(s) is Some,
    ensures
        !s.contains(':'),
        !s.contains('/'),
        !s.contains(']'),
{
    assert forall|i: int| 0 <= i < s.len() implies s[i] != ':' && s[i] != '/' && s[i] != ']' by {
        if s[0] == '+' {
            if i > 0 {
                assert(is_digit(s.skip(1)[i - 1]));
            }
        } else {
            assert(is_digit(s[i]));
        }
    }
}

/// A host without a colon or a bracket in front, a colon and a port are read as that host and that
/// port; the host is the IP address that it notes, and else a domain name.
pub proof fn law_host_and_port_are_read(host: Seq<char>, port: Seq<char>)
    requires
        host.len() > 0,
        !host.contains(':'),
        host[0] != '[',
        port_of(port) is Some,
    ensures
        server_addr_of(host.push(':') + port) == Some(
            ServerAddrView {
                host: match ip_of(host) {
                    Some(ip) => HostView::Ip(ip),
                    None => HostView::Domain(host),
                },
                port: port_of(port)->0,
            },
        ),
{
    let s = host.push(':') + port;
    let n = host.len() as int;
    lemma_port_chars(port);
    assert(!crate::text::contains_text(s, seq![':', '/', '/'])) by {
        if crate::text::contains_text(s, seq![':', '/', '/']) {
            let i = choose|i: int| occurs_at(s, seq![':', '/', '/'], i);
            let pat = seq![':', '/', '/'];
            assert(s[i + 0] == pat[0] && s[i + 1] == pat[1] && s[i + 2] == pat[2]);
            if i < n {
                assert(s[i] == host[i]);
                assert(host.contains(host[i]));
            } else {
                assert(s[i + 1] == port[i - n]);
                assert(port.contains(port[i - n]));
            }
        }
    }
    assert(s[0] == host[0]);
    s.index_of_last_ensures(':');
    assert(s[n] == ':');
    assert(s.contains(':'));
    let k = s.index_of_last(':')->0;
    assert(k == n) by {
        if k > n {
            assert(s[k] == port[k - n - 1]);
            assert(port.contains(port[k - n - 1]));
        }
    }
    assert(s.take(n) =~= host);
    assert(s.skip(n + 1) =~= port);
}

/// An IP literal in brackets, a colon and a port are read as that IP address and that port.
pub proof fn law_bracketed_literal_and_port_are_read(literal: Seq<char>, port: Seq<char>)
    requires
        ip_of(literal) is Some,
        port_of(port) is Some,
    ensures
        server_addr_of(seq!['['] + literal + seq![']', ':'] + port) == Some(
            ServerAddrView { host: HostView::Ip(ip_of(literal)->0), port: port_of(port)->0 },
        ),
{
    let close = seq![']', ':'];
    let s = seq!['['] + literal + close + port;
    let n = literal.len() as int;
    lemma_port_chars(port);
    lemma_ip_chars(literal);
    lemma_no_scheme(literal, port);
    let rest = s.skip(1);
    assert(rest =~= literal + close + port);
    lemma_first_bracket(literal, port);
    assert(rest.take(n) =~= literal);
    assert(rest.skip(n + 2) =~= port);
}

/// A bracketed text and a port hold no scheme if neither holds a slash.
proof fn lemma_no_scheme(literal: Seq<char>, port: Seq<char>)
    requires
        !literal.contains('/'),
        !port.contains('/'),
    ensures
        !crate::text::contains_text(
            seq!['['] + literal + seq![']', ':'] + port,
            seq![':', '/', '/'],
        ),
{
    let s = seq!['['] + literal + seq![']', ':'] + port;
    let n = literal.len() as int;
    let scheme = seq![':', '/', '/'];
    if crate::text::contains_text(s, scheme) {
        let i = choose|i: int| occurs_at(s, scheme, i);
        assert(s[i + 1] == scheme[1]);
        assert(scheme[1] == '/');
        if 0 < i + 1 <= n {
            assert(s[i + 1] == literal[i]);
            assert(literal.contains(literal[i]));
        } else if i + 1 > n + 2 {
            assert(s[i + 1] == port[i - n - 2]);
            assert(port.contains(port[i - n - 2]));
        } else if i + 1 == n + 1 {
            assert(s[i + 1] == ']');
        } else {
            assert(s[i + 1] == ':');
        }
    }
}

/// The first closing bracket and colon end a text that holds no closing bracket.
proof fn lemma_first_bracket(literal: Seq<char>, port: Seq<char>)
    requires
        !literal.contains(']'),
    ensures
        crate::text::find_text(literal + seq![']', ':'] + port, seq![']', ':']) == Some(
            literal.len() as int,
        ),
{
    let close = seq![']', ':'];
    let rest = literal + close + port;
    let n = literal.len() as int;
    assert forall|k: int| 0 <= k < close.len() implies rest[n + k] == #[trigger] close[k] by {}
    assert(occurs_at(rest, close, n));
    assert forall|j: int| 0 <= j < n implies !#[trigger] occurs_at(rest, close, j) by {
        if occurs_at(rest, close, j) {
            assert(rest[j + 0] == close[0]);
            assert(rest[j] == literal[j]);
            assert(literal.contains(literal[j]));
        }
    }
    crate::text::lemma_find_text(rest, close, n);
}

/// The characters of an IP literal: hexadecimal digits, colons and points.
pub open spec fn is_ip_char(c: char) -> bool {
    is_hex_digit(c) || c == ':' || c == '.'
}

proof fn lemma_joined_chars(p: Seq<Seq<char>>, sep: char)
    requires
        is_ip_char(sep),
        forall|i: int, k: int|
            0 <= i < p.len() && 0 <= k < p[i].len() ==> is_ip_char(#[trigger] p[i][k]),
    ensures
        forall|k: int| 0 <= k < joined_by(p, sep).len() ==> is_ip_char(
            #[trigger] joined_by(p, sep)[k],
        ),
    decreases p.len(),
{
    if p.len() > 1 {
        let q = p.drop_first();
        assert forall|i: int, k: int| 0 <= i < q.len() && 0 <= k < q[i].len() implies is_ip_char(
            #[trigger] q[i][k],
        ) by {
            assert(q[i] == p[i + 1]);
            assert(is_ip_char(p[i + 1][k]));
        }
        lemma_joined_chars(q, sep);
        let s = joined_by(p, sep);
        let n = p[0].len() as int;
        assert forall|k: int| 0 <= k < s.len() implies is_ip_char(#[trigger] s[k]) by {
            if k < n {
                assert(s[k] == p[0][k]);
            } else if k > n {
                assert(s[k] == joined_by(q, sep)[k - n - 1]);
            }
        }
    } else if p.len() == 1 {
        assert(joined_by(p, sep) == p[0]);
        assert forall|k: int| 0 <= k < joined_by(p, sep).len() implies is_ip_char(
            #[trigger] joined_by(p, sep)[k],
        ) by {
            assert(is_ip_char(p[0][k]));
        }
    }
}

proof fn lemma_ipv4_chars(s: Seq<char>)
    requires
        ipv4_of(s) is Some,
    ensures
        forall|k: int| 0 <= k < s.len() ==> is_ip_char(#[trigger] s[k]),
{
    law_split_pieces_join(s, '.');
    let p = split_on(s, '.');
    law_ipv4_is_four_octets(p);
    assert forall|i: int, k: int| 0 <= i < p.len() && 0 <= k < p[i].len() implies is_ip_char(
        #[trigger] p[i][k],
    ) by {
        assert(octet_of(p[i]) is Some);
        assert(is_digit(p[i][k]));
    }
    lemma_joined_chars(p, '.');
}

proof fn lemma_note_chars(p: Seq<Seq<char>>, g: Seq<u16>)
    requires
        note_last_groups(p, g),
    ensures
        forall|k: int| 0 <= k < joined_by(p, ':').len() ==> is_ip_char(
            #[trigger] joined_by(p, ':')[k],
        ),
{
    assert forall|i: int, k: int| 0 <= i < p.len() && 0 <= k < p[i].len() implies is_ip_char(
        #[trigger] p[i][k],
    ) by {
        if note_groups(p, g) {
            assert(group_of(p[i]) == Some(g[i]));
            assert(is_hex_digit(p[i][k]));
        } else if i < p.len() - 1 {
            assert(p[i] == p.drop_last()[i]);
            assert(group_of(p.drop_last()[i]) == Some(g.take(p.len() - 1)[i]));
            assert(is_hex_digit(p[i][k]));
        } else {
            lemma_ipv4_chars(p[i]);
        }
    }
    lemma_joined_chars(p, ':');
}

proof fn lemma_ip_chars(s: Seq<char>)
    requires
        ip_of(s) is Some,
    ensures
        forall|k: int| 0 <= k < s.len() ==> is_ip_char(#[trigger] s[k]),
        !s.contains(']'),
        !s.contains('/'),
{
    if ipv4_of(s) is Some {
        lemma_ipv4_chars(s);
    } else {
        let g = ipv6_of(s)->0;
        law_no_other_text_is_ipv6(s, g);
        if is_full(s, g) {
            let p = choose|p: Seq<Seq<char>>| #[trigger]
                note_last_groups(p, g) && s == joined_by(p, ':') && g.len() == 8;
            lemma_note_chars(p, g);
        } else {
            let (h, head, t, tail) = choose|
                h: Seq<Seq<char>>,
                head: Seq<u16>,
                t: Seq<Seq<char>>,
                tail: Seq<u16>,
            |
                {
                    &&& #[trigger] note_groups(h, head)
                    &&& #[trigger] note_last_groups(t, tail)
                    &&& head.len() + tail.len() <= 7
                    &&& s == joined_by(h, ':') + seq![':', ':'] + joined_by(t, ':')
                    &&& g.len() == 8
                    &&& g.take(head.len() as int) == head
                    &&& g.skip(8 - tail.len()) == tail
                };
            lemma_note_chars(h, head);
            lemma_note_chars(t, tail);
            let hs = joined_by(h, ':');
            let ts = joined_by(t, ':');
            let n = hs.len() as int;
            assert forall|k: int| 0 <= k < s.len() implies is_ip_char(#[trigger] s[k]) by {
                if k < n {
                    assert(s[k] == hs[k]);
                } else if k >= n + 2 {
                    assert(s[k] == ts[k - n - 2]);
                }
            }
        }
    }
}

/// Whether `s` is a bracketed IP literal and a port, or a host and a port, for the address `a`.
pub open spec fn is_server_addr(s: Seq<char>, a: ServerAddrView) -> bool {
    ||| exists|literal: Seq<char>, port: Seq<char>|
        {
            &&& s == seq!['['] + literal + seq![']', ':'] + port
            &&& #[trigger] ip_of(literal) is Some
            &&& #[trigger] port_of(port) == Some(a.port)
            &&& a.host == HostView::Ip(ip_of(literal)->0)
        }
    ||| exists|host: Seq<char>, port: Seq<char>|
        {
            &&& s == host.push(':') + port
            &&& host.len() > 0
            &&& host[0] != '['
            &&& !(#[trigger] host.contains(':'))
            &&& #[trigger] port_of(port) == Some(a.port)
            &&& a.host == (match ip_of(host) {
                Some(ip) => HostView::Ip(ip),
                None => HostView::Domain(host),
            })
        }
}

/// What is read from a text that starts with a bracket.
proof fn lemma_bracketed_parts(s: Seq<char>, a: ServerAddrView)
    requires
        server_addr_of(s) == Some(a),
        s.len() > 0,
        s[0] == '[',
    ensures
        crate::text::find_text(s.skip(1), seq![']', ':']) matches Some(i) && ip_of(
            s.skip(1).take(i),
        ) is Some && port_of(s.skip(1).skip(i + 2)) == Some(a.port) && a.host == HostView::Ip(
            ip_of(s.skip(1).take(i))->0,
        ),
{
}

/// What is read from a text that starts with no bracket.
proof fn lemma_unbracketed_parts(s: Seq<char>, a: ServerAddrView)
    requires
        server_addr_of(s) == Some(a),
        !(s.len() > 0 && s[0] == '['),
    ensures
        s.index_of_last(':') matches Some(i) && 0 < s.take(i).len() && !s.take(i).contains(':')
            && port_of(s.skip(i + 1)) == Some(a.port) && a.host == (match ip_of(s.take(i)) {
            Some(ip) => HostView::Ip(ip),
            None => HostView::Domain(s.take(i)),
        }),
{
}

proof fn lemma_bracketed_addr(
    s: Seq<char>,
    a: ServerAddrView,
    literal: Seq<char>,
    port: Seq<char>,
)
    requires
        s == seq!['['] + literal + seq![']', ':'] + port,
        ip_of(literal) is Some,
        port_of(port) == Some(a.port),
        a.host == HostView::Ip(ip_of(literal)->0),
    ensures
        is_server_addr(s, a),
{
}

proof fn lemma_unbracketed_addr(s: Seq<char>, a: ServerAddrView, host: Seq<char>, port: Seq<char>)
    requires
        s == host.push(':') + port,
        host.len() > 0,
        host[0] != '[',
        !host.contains(':'),
        port_of(port) == Some(a.port),
        a.host == (match ip_of(host) {
            Some(ip) => HostView::Ip(ip),
            None => HostView::Domain(host),
        }),
    ensures
        is_server_addr(s, a),
{
}

#[verifier::rlimit(40)]
proof fn lemma_read_in_brackets(s: Seq<char>, a: ServerAddrView)
    requires
        server_addr_of(s) == Some(a),
        s.len() > 0,
        s[0] == '[',
    ensures
        is_server_addr(s, a),
{
    lemma_bracketed_parts(s, a);
    let rest = s.skip(1);
    let close = seq![']', ':'];
    let i = crate::text::find_text(rest, close)->0;
    let literal = rest.take(i);
    let port = rest.skip(i + 2);
    assert(s == seq!['['] + literal + close + port) by {
        assert(crate::text::first_occurs_at(rest, close, i));
        lemma_text_around(rest, close, i);
        assert(s =~= seq!['['] + rest);
        assert(seq!['['] + (literal + close + port) =~= seq!['['] + literal + close + port);
    }
    lemma_bracketed_addr(s, a, literal, port);
}

#[verifier::rlimit(40)]
proof fn lemma_read_without_brackets(s: Seq<char>, a: ServerAddrView)
    requires
        server_addr_of(s) == Some(a),
        !(s.len() > 0 && s[0] == '['),
    ensures
        is_server_addr(s, a),
{
    lemma_unbracketed_parts(s, a);
    let i = s.index_of_last(':')->0;
    let host = s.take(i);
    let port = s.skip(i + 1);
    assert(s == host.push(':') + port && host[0] == s[0]) by {
        s.index_of_last_ensures(':');
        assert(s =~= host.push(':') + port);
    }
    lemma_unbracketed_addr(s, a, host, port);
}

/// No other text is read as a server address.
pub proof fn law_no_other_text_is_a_server_addr(s: Seq<char>, a: ServerAddrView)
    requires
        server_addr_of(s) == Some(a),
    ensures
        is_server_addr(s, a),
{
    if s.len() > 0 && s[0] == '[' {
        lemma_read_in_brackets(s, a);
    } else {
        lemma_read_without_brackets(s, a);
    }
}

/// A server address is written as its host, a colon and its port in decimal notation; an IPv6
/// address stands in brackets, and no other host does.
pub proof fn law_server_addrs_are_written(
    domain: Seq<char>,
    octets: Seq<u8>,
    groups: Seq<u16>,
    port: u16,
)
    ensures
        server_addr_text(ServerAddrView { host: HostView::Domain(domain), port }) == domain.push(
            ':',
        ) + decimal_text(port as nat),
        server_addr_text(ServerAddrView { host: HostView::Ip(IpView::V4(octets)), port })
            == crate::ip::ip_text(IpView::V4(octets)).push(':') + decimal_text(port as nat),
        server_addr_text(ServerAddrView { host: HostView::Ip(IpView::V6(groups)), port }) == seq![
            '[',
        ] + crate::ip::ip_text(IpView::V6(groups)) + seq![']', ':'] + decimal_text(port as nat),
{
    assert(domain + seq![':'] =~= domain.push(':'));
    let v4 = crate::ip::ip_text(IpView::V4(octets));
    assert(v4 + seq![':'] =~= v4.push(':'));
    assert(seq![']'] + seq![':'] =~= seq![']', ':']);
    let v6 = crate::ip::ip_text(IpView::V6(groups));
    assert(seq!['['] + v6 + seq![']'] + seq![':'] =~= seq!['['] + v6 + seq![']', ':']);
}

} // verus!
