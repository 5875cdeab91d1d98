//! Strings as sequences of characters: taking them apart, putting them together, and the decimal
//! and hexadecimal notation of numbers.

use vstd::prelude::*;
use vstd::slice::slice_subrange;

verus! {

/// `String::push` appends the given character to the end of the string.
pub assume_specification[ std::string::String::push ](s: &mut std::string::String, c: char)
    ensures
        final(s)@ == old(s)@.push(c),
;

// ---------------------------------------------------------------------------------------------
// Characters and digits
// ---------------------------------------------------------------------------------------------
/// Whether `c` is one of `0` to `9`.
pub open spec fn is_digit(c: char) -> bool {
    '0' <= c <= '9'
}

/// The value of a decimal digit.
pub open spec fn digit_value(c: char) -> nat {
    (c as int - '0' as int) as nat
}

/// The decimal digit of value `d`.
pub open spec fn digit_char(d: nat) -> char {
    ('0' as int + d as int) as char
}

/// Whether every character of `s` is a decimal digit.
pub open spec fn all_digits(s: Seq<char>) -> bool {
    forall|i: int| 0 <= i < s.len() ==> is_digit(#[trigger] s[i])
}

/// The number that a sequence of decimal digits stands for.
pub open spec fn decimal_value(s: Seq<char>) -> nat
    decreases s.len(),
{
    if s.len() == 0 {
        0
    } else {
        decimal_value(s.drop_last()) * 10 + digit_value(s.last())
    }
}

/// The shortest decimal notation of `n`.
pub open spec fn decimal_text(n: nat) -> Seq<char>
    decreases n,
{
    if n < 10 {
        seq![digit_char(n)]
    } else {
        decimal_text(n / 10).push(digit_char(n % 10))
    }
}

/// The shortest decimal notation of an integer, with a leading `-` where it is negative.
pub open spec fn signed_decimal_text(n: int) -> Seq<char> {
    if n < 0 {
        seq!['-'] + decimal_text((-n) as nat)
    } else {
        decimal_text(n as nat)
    }
}

/// Whether `c` is a hexadecimal digit, in either case.
pub open spec fn is_hex_digit(c: char) -> bool {
    is_digit(c) || 'a' <= c <= 'f' || 'A' <= c <= 'F'
}

/// The value of a hexadecimal digit.
pub open spec fn hex_digit_value(c: char) -> nat {
    if is_digit(c) {
        digit_value(c)
    } else if 'a' <= c <= 'f' {
        (c as int - 'a' as int + 10) as nat
    } else {
        (c as int - 'A' as int + 10) as nat
    }
}

/// The lower-case hexadecimal digit of value `d`.
pub open spec fn hex_digit_char(d: nat) -> char {
    if d < 10 {
        digit_char(d)
    } else {
        ('a' as int + d as int - 10) as char
    }
}

/// Whether every character of `s` is a hexadecimal digit.
pub open spec fn all_hex_digits(s: Seq<char>) -> bool {
    forall|i: int| 0 <= i < s.len() ==> is_hex_digit(#[trigger] s[i])
}

/// The number that a sequence of hexadecimal digits stands for.
pub open spec fn hex_value(s: Seq<char>) -> nat
    decreases s.len(),
{
    if s.len() == 0 {
        0
    } else {
        hex_value(s.drop_last()) * 16 + hex_digit_value(s.last())
    }
}

/// The shortest lower-case hexadecimal notation of `n`.
pub open spec fn hex_text(n: nat) -> Seq<char>
    decreases n,
{
    if n < 16 {
        seq![hex_digit_char(n)]
    } else {
        hex_text(n / 16).push(hex_digit_char(n % 16))
    }
}

// ---------------------------------------------------------------------------------------------
// Searching and splitting
// ---------------------------------------------------------------------------------------------
/// Whether `pat` stands in `s` at index `i`.
pub open spec fn occurs_at(s: Seq<char>, pat: Seq<char>, i: int) -> bool {
    &&& 0 <= i
    &&& i + pat.len() <= s.len()
    &&& forall|k: int| 0 <= k < pat.len() ==> s[i + k] == #[trigger] pat[k]
}

/// Whether `pat` stands anywhere in `s`.
pub open spec fn contains_text(s: Seq<char>, pat: Seq<char>) -> bool {
    exists|i: int| occurs_at(s, pat, i)
}

/// Whether `i` is the first index of `s` at which `pat` stands.
pub open spec fn first_occurs_at(s: Seq<char>, pat: Seq<char>, i: int) -> bool {
    &&& occurs_at(s, pat, i)
    &&& forall|j: int| 0 <= j < i ==> !#[trigger] occurs_at(s, pat, j)
}

/// The first index of `s` at which `pat` stands.
pub open spec fn find_text(s: Seq<char>, pat: Seq<char>) -> Option<int> {
    if exists|i: int| first_occurs_at(s, pat, i) {
        Some(choose|i: int| first_occurs_at(s, pat, i))
    } else {
        None
    }
}

/// The pieces of `s` between the occurrences of `sep`: one more than there are separators.
pub open spec fn split_on(s: Seq<char>, sep: char) -> Seq<Seq<char>>
    decreases s.len(),
{
    match s.index_of_first(sep) {
        Some(i) => if 0 <= i < s.len() {
            seq![s.take(i)] + split_on(s.skip(i + 1), sep)
        } else {
            seq![s]
        },
        None => seq![s],
    }
}

// ---------------------------------------------------------------------------------------------
// Lemmas
// ---------------------------------------------------------------------------------------------
/// There is at most one first occurrence.
pub proof fn lemma_find_text(s: Seq<char>, pat: Seq<char>, i: int)
    requires
        first_occurs_at(s, pat, i),
    ensures
        find_text(s, pat) == Some(i),
{
    let j = choose|j: int| first_occurs_at(s, pat, j);
    assert(first_occurs_at(s, pat, j));
    if j < i {
        assert(!occurs_at(s, pat, j));
    }
    if i < j {
        assert(!occurs_at(s, pat, i));
    }
}

/// A text that occurs nowhere is not found.
pub proof fn lemma_find_text_none(s: Seq<char>, pat: Seq<char>)
    requires
        !contains_text(s, pat),
    ensures
        find_text(s, pat) is None,
{
    if exists|i: int| first_occurs_at(s, pat, i) {
        let i = choose|i: int| first_occurs_at(s, pat, i);
        assert(occurs_at(s, pat, i));
    }
}

/// Splitting peels off a piece that holds no separator.
pub proof fn lemma_split_on_cons(a: Seq<char>, b: Seq<char>, sep: char)
    requires
        !a.contains(sep),
    ensures
        split_on(a.push(sep) + b, sep) == seq![a] + split_on(b, sep),
{
    let s = a.push(sep) + b;
    let i = a.len() as int;
    assert(s[i] == sep);
    s.index_of_first_ensures(sep);
    let j = s.index_of_first(sep)->0;
    if j < i {
        assert(a[j] == sep);
        assert(a.contains(sep));
    }
    assert(j == i);
    assert(s.take(i) =~= a);
    assert(s.skip(i + 1) =~= b);
}

/// A text that holds no separator is a single piece.
pub proof fn lemma_split_on_single(a: Seq<char>, sep: char)
    requires
        !a.contains(sep),
    ensures
        split_on(a, sep) == seq![a],
{
    a.index_of_first_ensures(sep);
}

/// Decimal notation reads back as the number, without a leading zero.
pub proof fn lemma_decimal_text(n: nat)
    ensures
        all_digits(decimal_text(n)),
        decimal_value(decimal_text(n)) == n,
        decimal_text(n).len() >= 1,
        n < 10 ==> decimal_text(n).len() == 1,
        n > 0 ==> decimal_text(n)[0] != '0',
    decreases n,
{
    if n < 10 {
        let t = decimal_text(n);
        assert(t.drop_last() =~= Seq::<char>::empty());
        assert(decimal_value(Seq::<char>::empty()) == 0);
    } else {
        lemma_decimal_text(n / 10);
        let t = decimal_text(n);
        assert(t.drop_last() =~= decimal_text(n / 10));
        assert(t.last() == digit_char(n % 10));
    }
}

/// A number below a thousand takes at most three decimal digits.
pub proof fn lemma_decimal_text_short(n: nat)
    requires
        n < 1000,
    ensures
        decimal_text(n).len() <= 3,
{
    reveal_with_fuel(decimal_text, 3);
}

/// Hexadecimal notation reads back as the number.
pub proof fn lemma_hex_text(n: nat)
    ensures
        all_hex_digits(hex_text(n)),
        hex_value(hex_text(n)) == n,
        hex_text(n).len() >= 1,
    decreases n,
{
    if n < 16 {
        let t = hex_text(n);
        assert(t.drop_last() =~= Seq::<char>::empty());
        assert(hex_value(Seq::<char>::empty()) == 0);
    } else {
        lemma_hex_text(n / 16);
        let t = hex_text(n);
        assert(t.drop_last() =~= hex_text(n / 16));
        assert(t.last() == hex_digit_char(n % 16));
    }
}

/// A sixteen-bit number takes at most four hexadecimal digits.
pub proof fn lemma_hex_text_short(n: nat)
    requires
        n < 0x10000,
    ensures
        hex_text(n).len() <= 4,
{
    reveal_with_fuel(hex_text, 4);
}

/// More digits never stand for a smaller number.
pub proof fn lemma_decimal_value_grows(s: Seq<char>, k: int)
    requires
        0 <= k <= s.len(),
    ensures
        decimal_value(s.take(k)) <= decimal_value(s),
    decreases s.len() - k,
{
    if k == s.len() {
        assert(s.take(k) =~= s);
    } else {
        lemma_decimal_value_grows(s, k + 1);
        assert(s.take(k + 1).drop_last() =~= s.take(k));
    }
}

/// The value of at most four hexadecimal digits fits sixteen bits.
pub proof fn lemma_hex_value_bound(s: Seq<char>)
    requires
        all_hex_digits(s),
        s.len() <= 4,
    ensures
        hex_value(s) < 0x10000,
{
    reveal_with_fuel(hex_value, 5);
    let s1 = s.drop_last();
    let s2 = s1.drop_last();
    let s3 = s2.drop_last();
    if s.len() > 0 {
        assert(is_hex_digit(s.last()));
    }
    if s.len() > 1 {
        assert(s1.last() == s[s.len() - 2]);
        assert(is_hex_digit(s1.last()));
    }
    if s.len() > 2 {
        assert(s2.last() == s[s.len() - 3]);
        assert(is_hex_digit(s2.last()));
    }
    if s.len() > 3 {
        assert(s3.last() == s[s.len() - 4]);
        assert(is_hex_digit(s3.last()));
    }
}

// ---------------------------------------------------------------------------------------------
// Executable functions
// ---------------------------------------------------------------------------------------------
/// The characters of `s`.
pub fn chars_of(s: &str) -> (r: Vec<char>)
    ensures
        r@ == s@,
{
    let mut r: Vec<char> = Vec::new();
    for c in it: s.chars()
        invariant
            r@ == it.seq().take(it.index()),
            it.seq() == s@,
    {
        r.push(c);
    }
    r
}

/// The string made of the given characters.
pub fn string_of(cs: &[char]) -> (r: String)
    ensures
        r@ == cs@,
{
    let mut r = String::new();
    push_chars(&mut r, cs);
    r
}

/// Appends the given characters to `out`.
pub fn push_chars(out: &mut String, cs: &[char])
    ensures
        final(out)@ == old(out)@ + cs@,
{
    let mut i: usize = 0;
    while i < cs.len()
        invariant
            i <= cs@.len(),
            out@ == old(out)@ + cs@.take(i as int),
        decreases cs@.len() - i,
    {
        out.push(cs[i]);
        i = i + 1;
        assert(out@ =~= old(out)@ + cs@.take(i as int));
    }
    assert(cs@.take(i as int) =~= cs@);
}

/// Appends the text `s` to `out`.
pub fn push_text(out: &mut String, s: &str)
    ensures
        final(out)@ == old(out)@ + s@,
{
    let cs = chars_of(s);
    push_chars(out, &cs);
}

/// Whether two texts are the same.
pub fn same_text(a: &str, b: &str) -> (r: bool)
    ensures
        r == (a@ == b@),
{
    let x = chars_of(a);
    let y = chars_of(b);
    if x.len() != y.len() {
        return false;
    }
    let mut i: usize = 0;
    while i < x.len()
        invariant
            i <= x@.len(),
            x@.len() == y@.len(),
            x@ == a@,
            y@ == b@,
            forall|j: int| 0 <= j < i ==> x@[j] == y@[j],
        decreases x@.len() - i,
    {
        if x[i] != y[i] {
            return false;
        }
        i = i + 1;
    }
    assert(x@ =~= y@);
    true
}

/// The index of the first `c` in `s`.
pub fn first_char(s: &[char], c: char) -> (r: Option<usize>)
    ensures
        match r {
            Some(i) => s@.index_of_first(c) == Some(i as int) && i < s@.len(),
            None => s@.index_of_first(c) is None && !s@.contains(c),
        },
{
    let mut i: usize = 0;
    proof {
        s@.index_of_first_ensures(c);
    }
    while i < s.len()
        invariant
            i <= s@.len(),
            forall|j: int| 0 <= j < i ==> s@[j] != c,
        decreases s@.len() - i,
    {
        if s[i] == c {
            proof {
                s@.index_of_first_ensures(c);
                assert(s@.contains(c));
            }
            return Some(i);
        }
        i = i + 1;
    }
    None
}

/// The index of the last `c` in `s`.
pub fn last_char(s: &[char], c: char) -> (r: Option<usize>)
    ensures
        match r {
            Some(i) => s@.index_of_last(c) == Some(i as int) && i < s@.len(),
            None => s@.index_of_last(c) is None && !s@.contains(c),
        },
{
    let mut i: usize = s.len();
    proof {
        s@.index_of_last_ensures(c);
    }
    while i > 0
        invariant
            i <= s@.len(),
            forall|j: int| i <= j < s@.len() ==> s@[j] != c,
        decreases i,
    {
        i = i - 1;
        if s[i] == c {
            proof {
                s@.index_of_last_ensures(c);
                assert(s@.contains(c));
            }
            return Some(i);
        }
    }
    None
}

/// The first index of `s` at which `pat` stands.
pub fn first_text(s: &[char], pat: &[char]) -> (r: Option<usize>)
    ensures
        match r {
            Some(i) => find_text(s@, pat@) == Some(i as int) && i + pat@.len() <= s@.len()
                && contains_text(s@, pat@),
            None => find_text(s@, pat@) is None && !contains_text(s@, pat@),
        },
{
    let n: usize = s.len();
    let m: usize = pat.len();
    if m <= n {
        let mut i: usize = 0;
        while i <= n - m
            invariant
                n == s@.len(),
                m == pat@.len(),
                m <= n,
                i <= n - m + 1,
                forall|j: int| 0 <= j < i ==> !#[trigger] occurs_at(s@, pat@, j),
            decreases n - m + 1 - i,
        {
            let mut k: usize = 0;
            while k < m && s[i + k] == pat[k]
                invariant
                    n == s@.len(),
                    m == pat@.len(),
                    k <= m,
                    i + m <= n,
                    forall|h: int| 0 <= h < k ==> s@[i + h] == #[trigger] pat@[h],
                decreases m - k,
            {
                k = k + 1;
            }
            if k == m {
                proof {
                    assert(first_occurs_at(s@, pat@, i as int));
                    lemma_find_text(s@, pat@, i as int);
                }
                return Some(i);
            }
            assert(!occurs_at(s@, pat@, i as int)) by {
                if occurs_at(s@, pat@, i as int) {
                    assert(s@[i + k] == pat@[k as int]);
                }
            }
            if i == n - m {
                proof {
                    lemma_find_text_none(s@, pat@);
                }
                return None;
            }
            i = i + 1;
        }
    }
    proof {
        lemma_find_text_none(s@, pat@);
    }
    None
}

/// The pieces of `s` between the occurrences of `sep`.
pub fn split_chars(s: &[char], sep: char) -> (r: Vec<&[char]>)
    ensures
        r@.len() == split_on(s@, sep).len(),
        forall|i: int| 0 <= i < r@.len() ==> (#[trigger] r@[i])@ == split_on(s@, sep)[i],
        r@.len() >= 1,
{
    let mut r: Vec<&[char]> = Vec::new();
    let mut from: usize = 0;
    assert(s@.skip(0) =~= s@);
    loop
        invariant
            from <= s@.len(),
            split_on(s@, sep).len() == r@.len() + split_on(s@.skip(from as int), sep).len(),
            forall|i: int| 0 <= i < r@.len() ==> (#[trigger] r@[i])@ == split_on(s@, sep)[i],
            forall|i: int|
                0 <= i < split_on(s@.skip(from as int), sep).len() ==> #[trigger] split_on(
                    s@.skip(from as int),
                    sep,
                )[i] == split_on(s@, sep)[r@.len() + i],
        decreases s@.len() - from,
    {
        let rest = slice_subrange(s, from, s.len());
        let ghost rest_view = s@.skip(from as int);
        assert(rest@ =~= rest_view);
        match first_char(rest, sep) {
            Some(i) => {
                let piece = slice_subrange(rest, 0, i);
                assert(piece@ =~= rest_view.take(i as int));
                let ghost before = split_on(rest_view, sep);
                let ghost after = split_on(rest_view.skip(i + 1), sep);
                assert(before == seq![rest_view.take(i as int)] + after);
                assert(before[0] == piece@);
                assert(split_on(s@, sep)[r@.len() as int] == before[0]);
                let ghost taken = r@.len();
                r.push(piece);
                from = from + i + 1;
                assert(s@.skip(from as int) =~= rest_view.skip(i + 1));
                assert forall|j: int| 0 <= j < after.len() implies #[trigger] after[j] == split_on(
                    s@,
                    sep,
                )[taken + 1 + j] by {
                    assert(before[j + 1] == after[j]);
                }
            },
            None => {
                assert(split_on(rest_view, sep) == seq![rest_view]);
                assert(split_on(rest_view, sep)[0] == split_on(s@, sep)[r@.len() as int]);
                r.push(rest);
                return r;
            },
        }
    }
}

/// Appends the decimal notation of `n` to `out`.
pub fn push_decimal(out: &mut String, n: u64)
    ensures
        final(out)@ == old(out)@ + decimal_text(n as nat),
    decreases n,
{
    if n >= 10 {
        push_decimal(out, n / 10);
    }
    let d: u8 = (n % 10) as u8;
    let c: char = (48u8 + d) as char;
    out.push(c);
    assert(c == digit_char((n % 10) as nat));
    assert(out@ =~= old(out)@ + decimal_text(n as nat));
}

/// The decimal notation of a signed integer.
pub fn signed_decimal(n: i64) -> (r: String)
    ensures
        r@ == signed_decimal_text(n as int),
{
    let mut out = String::new();
    if n < 0 {
        out.push('-');
        let magnitude: u64 = (-(n as i128)) as u64;
        push_decimal(&mut out, magnitude);
    } else {
        push_decimal(&mut out, n as u64);
    }
    assert(out@ =~= signed_decimal_text(n as int));
    out
}

/// Appends the lower-case hexadecimal notation of `n` to `out`.
pub fn push_hex(out: &mut String, n: u16)
    ensures
        final(out)@ == old(out)@ + hex_text(n as nat),
    decreases n,
{
    if n >= 16 {
        push_hex(out, n / 16);
    }
    let d: u8 = (n % 16) as u8;
    let c: char = if d < 10 {
        (48u8 + d) as char
    } else {
        (97u8 + (d - 10)) as char
    };
    out.push(c);
    assert(c == hex_digit_char((n % 16) as nat));
    assert(out@ =~= old(out)@ + hex_text(n as nat));
}

/// The value of `c` as a decimal digit.
pub fn decimal_digit(c: char) -> (r: Option<u8>)
    ensures
        match r {
            Some(d) => is_digit(c) && d == digit_value(c) && d < 10,
            None => !is_digit(c),
        },
{
    if '0' <= c && c <= '9' {
        Some((c as u32 - '0' as u32) as u8)
    } else {
        None
    }
}

/// The value of `c` as a hexadecimal digit.
pub fn hex_digit(c: char) -> (r: Option<u8>)
    ensures
        match r {
            Some(d) => is_hex_digit(c) && d == hex_digit_value(c) && d < 16,
            None => !is_hex_digit(c),
        },
{
    if '0' <= c && c <= '9' {
        Some((c as u32 - '0' as u32) as u8)
    } else if 'a' <= c && c <= 'f' {
        Some((c as u32 - 'a' as u32 + 10) as u8)
    } else if 'A' <= c && c <= 'F' {
        Some((c as u32 - 'A' as u32 + 10) as u8)
    } else {
        None
    }
}

} // verus!
