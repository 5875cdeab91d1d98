//! How the fields of server responses are decoded from the plain values that JSON gives.

use vstd::prelude::*;

use crate::consensus::{
    bytes_from_hex, Amount, Decodable, Header, HeaderView, Transaction, TransactionView,
};
use crate::text::{push_text, same_text, signed_decimal};

verus! {

/// A JSON value. A number is kept as its text.
#[derive(Debug, PartialEq, Eq)]
pub enum Value {
    /// `null`.
    Null,
    /// `true` or `false`.
    Bool(bool),
    /// A number, as its text.
    Number(String),
    /// A string.
    String(String),
    /// An array.
    Array(Vec<Value>),
    /// An object: its members in order.
    Object(Vec<(String, Value)>),
}

/// Why a field cannot be decoded.
#[derive(Debug, Clone, PartialEq, Eq)]
pub enum FieldError {
    /// The text is no hexadecimal text; carries what is wrong with it.
    Hex(String),
    /// The bytes are no consensus encoding; carries what is wrong with them.
    Consensus(String),
    /// An element of the array of headers is no string.
    ExpectedHexString,
    /// The headers are neither a string nor an array.
    ExpectedHexStringOrArray,
    /// The fee rate is negative.
    NegativeFeeRate,
    /// The number of virtual bytes is too large to be counted in weight units.
    WeightOverflow,
    /// The height of an unconfirmed transaction is neither 0 nor -1.
    UnexpectedHeight(i64),
    /// The protocol version is not that of JSON-RPC 2.0.
    WrongVersion,
}

/// What a [`FieldError`] holds.
pub enum FieldErrorView {
    /// See [`FieldError::Hex`].
    Hex(Seq<char>),
    /// See [`FieldError::Consensus`].
    Consensus(Seq<char>),
    /// See [`FieldError::ExpectedHexString`].
    ExpectedHexString,
    /// See [`FieldError::ExpectedHexStringOrArray`].
    ExpectedHexStringOrArray,
    /// See [`FieldError::NegativeFeeRate`].
    NegativeFeeRate,
    /// See [`FieldError::WeightOverflow`].
    WeightOverflow,
    /// See [`FieldError::UnexpectedHeight`].
    UnexpectedHeight(i64),
    /// See [`FieldError::WrongVersion`].
    WrongVersion,
}

impl View for FieldError {
    type V = FieldErrorView;

    open spec fn view(&self) -> FieldErrorView {
        match *self {
            FieldError::Hex(m) => FieldErrorView::Hex(m@),
            FieldError::Consensus(m) => FieldErrorView::Consensus(m@),
            FieldError::ExpectedHexString => FieldErrorView::ExpectedHexString,
            FieldError::ExpectedHexStringOrArray => FieldErrorView::ExpectedHexStringOrArray,
            FieldError::NegativeFeeRate => FieldErrorView::NegativeFeeRate,
            FieldError::WeightOverflow => FieldErrorView::WeightOverflow,
            FieldError::UnexpectedHeight(h) => FieldErrorView::UnexpectedHeight(h),
            FieldError::WrongVersion => FieldErrorView::WrongVersion,
        }
    }
}

/// The message of an error.
pub open spec fn message_text(e: FieldErrorView) -> Seq<char> {
    match e {
        FieldErrorView::Hex(m) => m,
        FieldErrorView::Consensus(m) => m,
        FieldErrorView::ExpectedHexString => "expected hex string in headers array"@,
        FieldErrorView::ExpectedHexStringOrArray =>
            "expected a hex string or array of hex strings for headers"@,
        FieldErrorView::NegativeFeeRate => "expected non-negative fee rate in BTC/kvB"@,
        FieldErrorView::WeightOverflow => "overflow: vb value cannot fit in to WU"@,
        FieldErrorView::UnexpectedHeight(h) => "invalid value: integer `"@
            + crate::text::signed_decimal_text(h as int) + "`, expected 0 or -1"@,
        FieldErrorView::WrongVersion => "JSON-RPC version is not 2.0"@,
    }
}

impl FieldError {
    /// The message of this error.
    pub fn to_string(&self) -> (r: String)
        ensures
            r@ == message_text(self@),
    {
        let mut out = String::new();
        match self {
            FieldError::Hex(m) => push_text(&mut out, m),
            FieldError::Consensus(m) => push_text(&mut out, m),
            FieldError::ExpectedHexString => push_text(
                &mut out,
                "expected hex string in headers array",
            ),
            FieldError::ExpectedHexStringOrArray => push_text(
                &mut out,
                "expected a hex string or array of hex strings for headers",
            ),
            FieldError::NegativeFeeRate => push_text(
                &mut out,
                "expected non-negative fee rate in BTC/kvB",
            ),
            FieldError::WeightOverflow => push_text(
                &mut out,
                "overflow: vb value cannot fit in to WU",
            ),
            FieldError::UnexpectedHeight(h) => {
                push_text(&mut out, "invalid value: integer `");
                push_text(&mut out, &signed_decimal(*h));
                push_text(&mut out, "`, expected 0 or -1");
            },
            FieldError::WrongVersion => push_text(&mut out, "JSON-RPC version is not 2.0"),
        }
        assert(out@ =~= message_text(self@));
        out
    }
}

// ---------------------------------------------------------------------------------------------
// Consensus-encoded fields
// ---------------------------------------------------------------------------------------------
/// Decodes a value from the hexadecimal text of its consensus encoding.
pub fn from_consensus_hex<T: Decodable>(hex_str: &str) -> (r: Result<T, FieldError>)
    ensures
        match r {
            Ok(value) => T::of_hex(hex_str@) == Ok::<T::V, Seq<char>>(value@),
            Err(e) => e@ is Consensus && T::of_hex(hex_str@) == Err::<T::V, Seq<char>>(
                e@->Consensus_0,
            ),
        },
{
    match T::deserialize_hex(hex_str) {
        Ok(value) => Ok(value),
        Err(message) => Err(FieldError::Consensus(message)),
    }
}

/// The values that `data` encodes back to back.
pub open spec fn values_of_bytes<T: Decodable>(data: Seq<u8>) -> Result<Seq<T::V>, FieldErrorView>
    decreases data.len(),
{
    if data.len() == 0 {
        Ok(Seq::empty())
    } else {
        match T::of_prefix(data) {
            Ok((value, n)) => if 0 < n <= data.len() {
                match values_of_bytes::<T>(data.skip(n as int)) {
                    Ok(rest) => Ok(seq![value] + rest),
                    Err(e) => Err(e),
                }
            } else {
                // No decoder takes nothing, or more than there is.
                arbitrary()
            },
            Err(m) => Err(FieldErrorView::Consensus(m)),
        }
    }
}

/// The values that one hexadecimal text encodes back to back.
pub open spec fn values_of_text<T: Decodable>(s: Seq<char>) -> Result<Seq<T::V>, FieldErrorView> {
    match crate::consensus::hex_bytes(s) {
        Some(data) => values_of_bytes::<T>(data),
        None => Err(FieldErrorView::Hex(crate::consensus::hex_error_text(s))),
    }
}

/// The value that an element of an array encodes.
pub open spec fn value_of_element<T: Decodable>(element: Value) -> Result<T::V, FieldErrorView> {
    match element {
        Value::String(s) => match T::of_hex(s@) {
            Ok(value) => Ok(value),
            Err(m) => Err(FieldErrorView::Consensus(m)),
        },
        _ => Err(FieldErrorView::ExpectedHexString),
    }
}

/// The values that the elements of an array encode, or the error of the first that encodes none.
pub open spec fn values_of_list<T: Decodable>(list: Seq<Value>) -> Result<
    Seq<T::V>,
    FieldErrorView,
>
    decreases list.len(),
{
    if list.len() == 0 {
        Ok(Seq::empty())
    } else {
        match value_of_element::<T>(list[0]) {
            Ok(value) => match values_of_list::<T>(list.drop_first()) {
                Ok(rest) => Ok(seq![value] + rest),
                Err(e) => Err(e),
            },
            Err(e) => Err(e),
        }
    }
}

/// The values that a JSON value holds, in either format.
pub open spec fn values_of_json<T: Decodable>(value: Value) -> Result<Seq<T::V>, FieldErrorView> {
    match value {
        Value::String(s) => values_of_text::<T>(s@),
        Value::Array(list) => values_of_list::<T>(list@),
        _ => Err(FieldErrorView::ExpectedHexStringOrArray),
    }
}

/// The views of the items of a vector.
pub open spec fn views<T: View>(v: Seq<T>) -> Seq<T::V> {
    v.map_values(|item: T| item@)
}

/// What a result holds, seen through the views of its items and of its error.
pub open spec fn result_view<T: View>(r: Result<Vec<T>, FieldError>) -> Result<
    Seq<T::V>,
    FieldErrorView,
> {
    match r {
        Ok(items) => Ok(views(items@)),
        Err(e) => Err(e@),
    }
}

/// Puts the given items in front of a decoded sequence.
pub open spec fn prepend<V>(
    items: Seq<V>,
    rest: Result<Seq<V>, FieldErrorView>,
) -> Result<Seq<V>, FieldErrorView> {
    match rest {
        Ok(more) => Ok(items + more),
        Err(e) => Err(e),
    }
}

/// Decodes the values that `data` holds back to back.
pub fn from_consensus_bytes<T: Decodable>(data: &[u8]) -> (r: Result<Vec<T>, FieldError>)
    ensures
        result_view(r) == values_of_bytes::<T>(data@),
{
    let mut items: Vec<T> = Vec::new();
    let mut read_start: usize = 0;
    assert(data@.skip(0) =~= data@);
    assert(views(items@) =~= Seq::<T::V>::empty());
    proof {
        lemma_prepend_empty::<T::V>(values_of_bytes::<T>(data@));
    }
    while read_start < data.len()
        invariant
            read_start <= data@.len(),
            values_of_bytes::<T>(data@) == prepend(
                views(items@),
                values_of_bytes::<T>(data@.skip(read_start as int)),
            ),
        decreases data@.len() - read_start,
    {
        let rest = vstd::slice::slice_subrange(data, read_start, data.len());
        let ghost before = data@.skip(read_start as int);
        assert(rest@ =~= before);
        match T::deserialize_partial(rest) {
            Ok((item, read_count)) => {
                let ghost old_items = views(items@);
                let ghost value = item@;
                let ghost after = before.skip(read_count as int);
                read_start = read_start + read_count;
                items.push(item);
                proof {
                    assert(data@.skip(read_start as int) =~= after);
                    assert(views(items@) =~= old_items + seq![value]);
                    if values_of_bytes::<T>(after) is Ok {
                        let more = values_of_bytes::<T>(after)->Ok_0;
                        assert(old_items + (seq![value] + more) =~= views(items@) + more);
                    }
                }
            },
            Err(message) => {
                return Err(FieldError::Consensus(message));
            },
        }
    }
    proof {
        assert(data@.skip(read_start as int) =~= Seq::<u8>::empty());
        assert(views(items@) + Seq::<T::V>::empty() =~= views(items@));
    }
    Ok(items)
}

/// Putting nothing in front changes nothing.
proof fn lemma_prepend_empty<V>(rest: Result<Seq<V>, FieldErrorView>)
    ensures
        prepend(Seq::<V>::empty(), rest) == rest,
{
    if rest is Ok {
        assert(Seq::<V>::empty() + rest->Ok_0 =~= rest->Ok_0);
    }
}

/// Decodes the values that the elements of an array hold.
pub fn from_hex_list<T: Decodable>(list: &Vec<Value>) -> (r: Result<Vec<T>, FieldError>)
    ensures
        result_view(r) == values_of_list::<T>(list@),
{
    let mut items: Vec<T> = Vec::new();
    let mut i: usize = 0;
    assert(list@.skip(0) =~= list@);
    assert(views(items@) =~= Seq::<T::V>::empty());
    proof {
        lemma_prepend_empty::<T::V>(values_of_list::<T>(list@));
    }
    while i < list.len()
        invariant
            i <= list@.len(),
            values_of_list::<T>(list@) == prepend(
                views(items@),
                values_of_list::<T>(list@.skip(i as int)),
            ),
        decreases list@.len() - i,
    {
        let ghost before = list@.skip(i as int);
        let ghost after = list@.skip(i + 1);
        assert(before[0] == list@[i as int]);
        assert(before.drop_first() =~= after);
        let decoded: Result<T, FieldError> = match &list[i] {
            Value::String(hex_str) => from_consensus_hex(hex_str),
            _ => Err(FieldError::ExpectedHexString),
        };
        match decoded {
            Ok(item) => {
                let ghost old_items = views(items@);
                let ghost value = item@;
                assert(value_of_element::<T>(before[0]) == Ok::<T::V, FieldErrorView>(value));
                items.push(item);
                i = i + 1;
                proof {
                    assert(views(items@) =~= old_items + seq![value]);
                    if values_of_list::<T>(after) is Ok {
                        let more = values_of_list::<T>(after)->Ok_0;
                        assert(old_items + (seq![value] + more) =~= views(items@) + more);
                    }
                }
            },
            Err(e) => {
                assert(value_of_element::<T>(before[0]) == Err::<T::V, FieldErrorView>(e@));
                return Err(e);
            },
        }
    }
    proof {
        assert(list@.skip(i as int) =~= Seq::<Value>::empty());
        assert(views(items@) + Seq::<T::V>::empty() =~= views(items@));
    }
    Ok(items)
}

/// Decodes headers from either:
/// - a single concatenated hex string (the `"hex"` field of protocols before 1.6), or
/// - an array of individual hex strings (the `"headers"` field since 1.6).
pub fn headers_from_hex_or_list<T: Decodable>(value: &Value) -> (r: Result<Vec<T>, FieldError>)
    ensures
        result_view(r) == values_of_json::<T>(*value),
{
    match value {
        Value::String(hex_str) => match bytes_from_hex(hex_str) {
            Ok(data) => from_consensus_bytes(&data),
            Err(message) => Err(FieldError::Hex(message)),
        },
        Value::Array(list) => from_hex_list(list),
        _ => Err(FieldError::ExpectedHexStringOrArray),
    }
}

// ---------------------------------------------------------------------------------------------
// Laws of the two formats
// ---------------------------------------------------------------------------------------------
/// The texts of a list of strings, one after the other.
pub open spec fn concatenated(list: Seq<Value>) -> Seq<char>
    decreases list.len(),
{
    if list.len() == 0 {
        Seq::empty()
    } else {
        (match list[0] {
            Value::String(s) => s@,
            _ => Seq::empty(),
        }) + concatenated(list.drop_first())
    }
}

/// Bytes noted one after the other are noted by the concatenated text.
proof fn lemma_hex_bytes_concat(a: Seq<char>, b: Seq<char>)
    requires
        crate::consensus::hex_bytes(a) is Some,
        crate::consensus::hex_bytes(b) is Some,
    ensures
        crate::consensus::hex_bytes(a + b) == Some(
            crate::consensus::hex_bytes(a)->0 + crate::consensus::hex_bytes(b)->0,
        ),
{
    let s = a + b;
    assert forall|i: int| 0 <= i < s.len() implies crate::text::is_hex_digit(#[trigger] s[i]) by {
        if i < a.len() {
            assert(s[i] == a[i]);
        } else {
            assert(s[i] == b[i - a.len()]);
        }
    }
    let x = crate::consensus::hex_bytes(a)->0;
    let y = crate::consensus::hex_bytes(b)->0;
    let z = crate::consensus::hex_bytes(s)->0;
    assert(z =~= x + y) by {
        assert forall|i: int| 0 <= i < z.len() implies z[i] == (x + y)[i] by {
            if i < x.len() {
                assert(s[2 * i] == a[2 * i] && s[2 * i + 1] == a[2 * i + 1]);
            } else {
                let j = i - x.len();
                assert(s[2 * i] == b[2 * j] && s[2 * i + 1] == b[2 * j + 1]);
            }
        }
    }
}

/// Both formats give the same headers: an array of texts that each encode a header decodes to what
/// their concatenation decodes to.
pub proof fn law_both_formats_agree(list: Seq<Value>)
    requires
        values_of_list::<Header>(list) is Ok,
    ensures
        values_of_text::<Header>(concatenated(list)) == values_of_list::<Header>(list),
        crate::consensus::hex_bytes(concatenated(list)) is Some,
    decreases list.len(),
{
    let all = concatenated(list);
    if list.len() == 0 {
        assert(crate::consensus::hex_bytes(all)->0 =~= Seq::<u8>::empty());
    } else {
        let rest = list.drop_first();
        law_both_formats_agree(rest);
        let s = list[0]->String_0@;
        let b = crate::consensus::hex_bytes(s)->0;
        let c = crate::consensus::hex_bytes(concatenated(rest))->0;
        lemma_hex_bytes_concat(s, concatenated(rest));
        assert(crate::consensus::hex_bytes(all) == Some(b + c));
        assert((b + c).take(80) =~= b);
        assert((b + c).skip(80) =~= c);
    }
}

/// Whether `bytes` decode to `value`: in front of any others, and by every text that notes them.
pub open spec fn encodes<T: Decodable>(bytes: Seq<u8>, value: T::V) -> bool {
    &&& bytes.len() > 0
    &&& forall|rest: Seq<u8>|
        #[trigger] T::of_prefix(bytes + rest) == Ok::<(T::V, nat), Seq<char>>((value, bytes.len()))
    &&& forall|s: Seq<char>|
        crate::consensus::hex_bytes(s) == Some(bytes) ==> #[trigger] T::of_hex(s) == Ok::<
            T::V,
            Seq<char>,
        >(value)
}

/// Whether `list` is a list of strings, each of which notes an encoding of the value of the same
/// index.
pub open spec fn notes_all<T: Decodable>(list: Seq<Value>, values: Seq<T::V>) -> bool {
    &&& list.len() == values.len()
    &&& forall|i: int|
        0 <= i < list.len() ==> (#[trigger] list[i] matches Value::String(s)
            && crate::consensus::hex_bytes(s@) is Some && encodes::<T>(
            crate::consensus::hex_bytes(s@)->0,
            values[i],
        ))
}

/// Both formats give back every list of values that is written in them, each value once and in
/// order: the array of the texts of the encodings, and the one text of all of them.
pub proof fn law_both_formats_read_back<T: Decodable>(list: Seq<Value>, values: Seq<T::V>)
    requires
        notes_all::<T>(list, values),
    ensures
        values_of_list::<T>(list) == Ok::<Seq<T::V>, FieldErrorView>(values),
        values_of_text::<T>(concatenated(list)) == Ok::<Seq<T::V>, FieldErrorView>(values),
        crate::consensus::hex_bytes(concatenated(list)) is Some,
    decreases list.len(),
{
    if list.len() == 0 {
        assert(crate::consensus::hex_bytes(concatenated(list))->0 =~= Seq::<u8>::empty());
        assert(values =~= Seq::<T::V>::empty());
    } else {
        let rest = list.drop_first();
        let more = values.drop_first();
        assert forall|i: int| 0 <= i < rest.len() implies (#[trigger] rest[i] matches Value::String(
            s,
        ) && crate::consensus::hex_bytes(s@) is Some && encodes::<T>(
            crate::consensus::hex_bytes(s@)->0,
            more[i],
        )) by {
            assert(rest[i] == list[i + 1]);
        }
        law_both_formats_read_back::<T>(rest, more);
        assert(list[0] is String);
        let s = list[0]->String_0@;
        let b = crate::consensus::hex_bytes(s)->0;
        let c = crate::consensus::hex_bytes(concatenated(rest))->0;
        lemma_hex_bytes_concat(s, concatenated(rest));
        assert(encodes::<T>(b, values[0]));
        assert(T::of_prefix(b + c) == Ok::<(T::V, nat), Seq<char>>((values[0], b.len())));
        assert(T::of_hex(s) == Ok::<T::V, Seq<char>>(values[0]));
        assert((b + c).skip(b.len() as int) =~= c);
        assert(values =~= seq![values[0]] + more);
    }
}

/// The eighty bytes of a header encode it, so that both formats give back every list of headers.
pub proof fn law_headers_read_back(list: Seq<Value>, headers: Seq<Header>)
    requires
        list.len() == headers.len(),
        forall|i: int|
            0 <= i < list.len() ==> (#[trigger] list[i] matches Value::String(s)
                && crate::consensus::hex_bytes(s@) == Some(
                crate::consensus::header_bytes(headers[i]@),
            )),
    ensures
        values_of_list::<Header>(list) == Ok::<Seq<HeaderView>, FieldErrorView>(views(headers)),
        values_of_text::<Header>(concatenated(list)) == Ok::<Seq<HeaderView>, FieldErrorView>(
            views(headers),
        ),
{
    assert forall|i: int| 0 <= i < list.len() implies (#[trigger] list[i] matches Value::String(s)
        && crate::consensus::hex_bytes(s@) is Some && encodes::<Header>(
        crate::consensus::hex_bytes(s@)->0,
        views(headers)[i],
    )) by {
        let h = headers[i];
        let b = crate::consensus::header_bytes(h@);
        crate::consensus::law_header_reads_back(h);
        assert forall|rest: Seq<u8>| #[trigger]
            Header::of_prefix(b + rest) == Ok::<(HeaderView, nat), Seq<char>>((h@, b.len())) by {
            assert((b + rest).take(80) =~= b);
        }
    }
    law_both_formats_read_back::<Header>(list, views(headers));
}

/// The encoding of a transaction encodes it, so that both formats give back every list of
/// transactions.
pub proof fn law_transactions_read_back(list: Seq<Value>, txs: Seq<TransactionView>)
    requires
        list.len() == txs.len(),
        forall|i: int|
            0 <= i < list.len() ==> crate::encoding::is_transaction(#[trigger] txs[i])
                && crate::encoding::transaction_bytes(txs[i]).len()
                <= crate::encoding::MAX_SIZE,
        forall|i: int|
            0 <= i < list.len() ==> (#[trigger] list[i] matches Value::String(s)
                && crate::consensus::hex_bytes(s@) == Some(
                crate::encoding::transaction_bytes(txs[i]),
            )),
    ensures
        values_of_list::<Transaction>(list) == Ok::<Seq<TransactionView>, FieldErrorView>(txs),
        values_of_text::<Transaction>(concatenated(list)) == Ok::<
            Seq<TransactionView>,
            FieldErrorView,
        >(txs),
{
    assert forall|i: int| 0 <= i < list.len() implies (#[trigger] list[i] matches Value::String(s)
        && crate::consensus::hex_bytes(s@) is Some && encodes::<Transaction>(
        crate::consensus::hex_bytes(s@)->0,
        txs[i],
    )) by {
        let tx = txs[i];
        let b = crate::encoding::transaction_bytes(tx);
        crate::encoding::law_short_transactions_have_short_witnesses(tx);
        assert forall|rest: Seq<u8>| #[trigger]
            Transaction::of_prefix(b + rest) == Ok::<(TransactionView, nat), Seq<char>>(
                (tx, b.len()),
            ) by {
            crate::consensus::law_transaction_reads_back_in_front(tx, rest);
        }
        assert forall|s: Seq<char>|
            crate::consensus::hex_bytes(s) == Some(b) implies #[trigger] Transaction::of_hex(s)
            == Ok::<TransactionView, Seq<char>>(tx) by {
            crate::consensus::law_transaction_reads_back(tx, s);
        }
    }
    law_both_formats_read_back::<Transaction>(list, txs);
}

/// Bytes are a sequence of headers exactly where their number is a multiple of eighty; there is
/// then one header for each eighty bytes.
pub proof fn law_headers_take_eighty_bytes(data: Seq<u8>)
    ensures
        values_of_bytes::<Header>(data) is Ok <==> data.len() % 80 == 0,
        values_of_bytes::<Header>(data) matches Ok(headers) ==> headers.len() * 80 == data.len()
            && forall|i: int|
            0 <= i < headers.len() ==> #[trigger] headers[i] == crate::consensus::header_of(
                data.subrange(80 * i, 80 * i + 80),
            ),
    decreases data.len(),
{
    if data.len() >= 80 {
        let rest = data.skip(80);
        law_headers_take_eighty_bytes(rest);
        if values_of_bytes::<Header>(data) is Ok {
            let headers = values_of_bytes::<Header>(data)->Ok_0;
            let more = values_of_bytes::<Header>(rest)->Ok_0;
            assert forall|i: int| 0 <= i < headers.len() implies #[trigger] headers[i]
                == crate::consensus::header_of(data.subrange(80 * i, 80 * i + 80)) by {
                if i == 0 {
                    assert(data.take(80) =~= data.subrange(0, 80));
                } else {
                    assert(headers[i] == more[i - 1]);
                    assert(rest.subrange(80 * (i - 1), 80 * (i - 1) + 80) =~= data.subrange(
                        80 * i,
                        80 * i + 80,
                    ));
                }
            }
        }
    }
}

/// Bytes are decoded value by value: none are no values, the first value comes before those of the
/// bytes behind it, and where the first bytes encode none, all are refused for what is wrong there.
pub proof fn law_bytes_are_read_value_by_value<T: Decodable>(
    data: Seq<u8>,
    value: T::V,
    n: nat,
    m: Seq<char>,
)
    ensures
        values_of_bytes::<T>(Seq::empty()) == Ok::<Seq<T::V>, FieldErrorView>(Seq::empty()),
        data.len() > 0 && T::of_prefix(data) == Err::<(T::V, nat), Seq<char>>(m)
            ==> values_of_bytes::<T>(data) == Err::<Seq<T::V>, FieldErrorView>(
            FieldErrorView::Consensus(m),
        ),
        T::of_prefix(data) == Ok::<(T::V, nat), Seq<char>>((value, n)) && 0 < n <= data.len() ==> (
        match values_of_bytes::<T>(data.skip(n as int)) {
            Ok(rest) => values_of_bytes::<T>(data) matches Ok(all) && all.len() == rest.len() + 1
                && all[0] == value && all.drop_first() == rest,
            Err(e) => values_of_bytes::<T>(data) == Err::<Seq<T::V>, FieldErrorView>(e),
        }),
{
    if T::of_prefix(data) == Ok::<(T::V, nat), Seq<char>>((value, n)) && 0 < n <= data.len() {
        if let Ok(rest) = values_of_bytes::<T>(data.skip(n as int)) {
            assert((seq![value] + rest).drop_first() =~= rest);
        }
    }
}

/// An array is refused for its first element that encodes no value, whatever follows it: for not
/// being a string, or for what is wrong with its text.
pub proof fn law_the_first_refused_element_is_told<T: Decodable>(list: Seq<Value>, i: int)
    requires
        0 <= i < list.len(),
        forall|j: int|
            0 <= j < i ==> (#[trigger] list[j] matches Value::String(s) && T::of_hex(s@) is Ok),
        list[i] matches Value::String(s) ==> T::of_hex(s@) is Err,
    ensures
        values_of_list::<T>(list) == Err::<Seq<T::V>, FieldErrorView>(
            match list[i] {
                Value::String(s) => FieldErrorView::Consensus(T::of_hex(s@)->Err_0),
                _ => FieldErrorView::ExpectedHexString,
            },
        ),
    decreases i,
{
    if i > 0 {
        assert(list[0] is String);
        let rest = list.drop_first();
        assert forall|j: int| 0 <= j < i - 1 implies (#[trigger] rest[j] matches Value::String(s)
            && T::of_hex(s@) is Ok) by {
            assert(rest[j] == list[j + 1]);
        }
        law_the_first_refused_element_is_told::<T>(rest, i - 1);
    }
}

/// An array all of whose elements encode a value gives those values, each at its index.
pub proof fn law_every_element_gives_its_value<T: Decodable>(list: Seq<Value>)
    requires
        forall|j: int|
            0 <= j < list.len() ==> (#[trigger] list[j] matches Value::String(s) && T::of_hex(
                s@,
            ) is Ok),
    ensures
        values_of_list::<T>(list) matches Ok(values) && values.len() == list.len() && forall|j: int|
            0 <= j < list.len() ==> T::of_hex(list[j]->String_0@) == Ok::<T::V, Seq<char>>(
                #[trigger] values[j],
            ),
    decreases list.len(),
{
    if list.len() > 0 {
        assert(list[0] is String);
        let rest = list.drop_first();
        assert forall|j: int| 0 <= j < rest.len() implies (#[trigger] rest[j] matches Value::String(
            s,
        ) && T::of_hex(s@) is Ok) by {
            assert(rest[j] == list[j + 1]);
        }
        law_every_element_gives_its_value::<T>(rest);
        let values = values_of_list::<T>(list)->Ok_0;
        let more = values_of_list::<T>(rest)->Ok_0;
        assert forall|j: int| 0 <= j < list.len() implies T::of_hex(list[j]->String_0@) == Ok::<
            T::V,
            Seq<char>,
        >(#[trigger] values[j]) by {
            if j > 0 {
                assert(values[j] == more[j - 1]);
                assert(list[j] == rest[j - 1]);
            }
        }
    }
}

/// A JSON value is read as one text or as an array of texts, and any other is refused; text that
/// notes no bytes is refused as such.
pub proof fn law_json_is_a_text_or_an_array<T: Decodable>(value: Value)
    ensures
        value matches Value::String(s) ==> values_of_json::<T>(value) == (
        match crate::consensus::hex_bytes(s@) {
            Some(data) => values_of_bytes::<T>(data),
            None => Err(
                FieldErrorView::Hex(
                    if crate::consensus::odd_length(s@) {
                        "odd length, failed to create bytes from hex"@
                    } else {
                        "invalid char, failed to create bytes from hex"@
                    },
                ),
            ),
        }),
        value matches Value::Array(list) ==> values_of_json::<T>(value) == values_of_list::<T>(
            list@,
        ),
        !(value is String) && !(value is Array) ==> values_of_json::<T>(value) == Err::<
            Seq<T::V>,
            FieldErrorView,
        >(FieldErrorView::ExpectedHexStringOrArray),
{
}

// ---------------------------------------------------------------------------------------------
// Fee rates, weights and amounts
// ---------------------------------------------------------------------------------------------
/// A fee rate in satoshis per thousand weight units.
#[derive(Debug, Clone, Copy, PartialEq, Eq)]
pub struct FeeRate {
    /// The satoshis per thousand weight units.
    pub sat_per_kwu: u64,
}

/// A weight in weight units.
#[derive(Debug, Clone, Copy, PartialEq, Eq)]
pub struct Weight {
    /// The weight units.
    pub wu: u64,
}

/// A fee rate that was given in BTC/kvB: whether its sign is negative, and its amount.
#[derive(Debug, Clone, Copy, PartialEq, Eq)]
pub struct BtcPerKvb {
    /// Whether the sign is negative, that of a negative zero included.
    pub negative: bool,
    /// The amount in satoshis per thousand weight units.
    pub sat_per_kwu: u64,
}

/// BTC/kvB to [`FeeRate`]; errors if negative.
pub fn feerate_from_btc_per_kb(rate: BtcPerKvb) -> (r: Result<FeeRate, FieldError>)
    ensures
        match r {
            Ok(fee_rate) => !rate.negative && fee_rate.sat_per_kwu == rate.sat_per_kwu,
            Err(e) => rate.negative && e@ == FieldErrorView::NegativeFeeRate,
        },
{
    if rate.negative {
        return Err(FieldError::NegativeFeeRate);
    }
    Ok(FeeRate { sat_per_kwu: rate.sat_per_kwu })
}

/// BTC/kvB to [`FeeRate`]; a negative rate, by which a server says that it has no estimate, is
/// `None`.
pub fn feerate_opt_from_btc_per_kb(rate: BtcPerKvb) -> (r: Result<Option<FeeRate>, FieldError>)
    ensures
        r == Ok::<Option<FeeRate>, FieldError>(
            if rate.negative {
                None
            } else {
                Some(FeeRate { sat_per_kwu: rate.sat_per_kwu })
            },
        ),
{
    if rate.negative {
        return Ok(None);
    }
    match feerate_from_btc_per_kb(rate) {
        Ok(fee_rate) => Ok(Some(fee_rate)),
        Err(e) => Err(e),
    }
}

/// `bitcoin::Weight::from_vb` gives four weight units for each virtual byte, where their number
/// fits 64 bits, and nothing where it does not.
#[verifier::external_body]
fn wu_from_vb(vb: u64) -> (r: Option<u64>)
    ensures
        match r {
            Some(wu) => wu == vb * 4,
            None => vb * 4 > u64::MAX,
        },
{
    bitcoin::Weight::from_vb(vb).map(|w| w.to_wu())
}

/// Virtual bytes to [`Weight`]; errors where the weight does not fit 64 bits.
pub fn weight_from_vb(vb: u64) -> (r: Result<Weight, FieldError>)
    ensures
        match r {
            Ok(weight) => weight.wu == vb * 4,
            Err(e) => vb * 4 > u64::MAX && e@ == FieldErrorView::WeightOverflow,
        },
{
    match wu_from_vb(vb) {
        Some(wu) => Ok(Weight { wu }),
        None => Err(FieldError::WeightOverflow),
    }
}

/// Satoshis to [`Amount`].
pub fn amount_from_sats(sats: u64) -> (r: Amount)
    ensures
        r.sat == sats,
{
    Amount { sat: sats }
}

/// Satoshis, which may be negative, to the [`Amount`] of their absolute value.
pub fn amount_from_maybe_negative_sats(sats: i64) -> (r: Amount)
    ensures
        r.sat == (if sats < 0 {
            -sats
        } else {
            sats as int
        }),
{
    if sats < 0 {
        Amount { sat: (-(sats as i128)) as u64 }
    } else {
        Amount { sat: sats as u64 }
    }
}

// ---------------------------------------------------------------------------------------------
// Heights, results and versions
// ---------------------------------------------------------------------------------------------
/// What the height of an unconfirmed transaction says of its inputs: 0 that all of them are
/// confirmed, -1 that not all are, and any other height nothing.
pub open spec fn inputs_confirmed_of(height: int) -> Option<bool> {
    if height == 0 {
        Some(true)
    } else if height == -1 {
        Some(false)
    } else {
        None
    }
}

/// A height tells that all inputs are confirmed if it is 0, that not all are if it is -1, and
/// nothing if it is any other.
pub proof fn law_only_two_heights_tell_of_inputs(height: int)
    ensures
        inputs_confirmed_of(height) == Some(true) <==> height == 0,
        inputs_confirmed_of(height) == Some(false) <==> height + 1 == 0,
        inputs_confirmed_of(height) is None <==> height > 0 || height < -1,
{
}

/// The message for a height shows the height, and the messages of outside errors are kept.
pub proof fn law_messages_show_what_is_wrong(m: Seq<char>, h: i64)
    ensures
        message_text(FieldErrorView::Hex(m)) == m,
        message_text(FieldErrorView::Consensus(m)) == m,
        message_text(FieldErrorView::UnexpectedHeight(h)).take(24) == "invalid value: integer `"@,
        message_text(FieldErrorView::UnexpectedHeight(h)).skip(24)
            == crate::text::signed_decimal_text(h as int) + "`, expected 0 or -1"@,
{
    reveal_strlit("invalid value: integer `");
    let t = message_text(FieldErrorView::UnexpectedHeight(h));
    assert(t.take(24) =~= "invalid value: integer `"@);
    assert(t.skip(24) =~= crate::text::signed_decimal_text(h as int) + "`, expected 0 or -1"@);
}

/// Whether all inputs of an unconfirmed transaction are confirmed, by the height that the server
/// gives it: 0 where they are, -1 where they are not.
pub fn all_inputs_confirmed_bool_from_height(height: i64) -> (r: Result<bool, FieldError>)
    ensures
        match r {
            Ok(confirmed) => inputs_confirmed_of(height as int) == Some(confirmed),
            Err(e) => inputs_confirmed_of(height as int) is None && e@
                == FieldErrorView::UnexpectedHeight(height),
        },
{
    if height == 0 {
        Ok(true)
    } else if height == -1 {
        Ok(false)
    } else {
        Err(FieldError::UnexpectedHeight(height))
    }
}

/// The member of a JSON-RPC response that tells its outcome.
#[derive(Debug, PartialEq, Eq)]
pub enum Outcome<V> {
    /// The `"result"` member.
    Result(V),
    /// The `"error"` member.
    Error(V),
}

/// The outcome of a JSON-RPC call as a `Result`.
pub fn result<V>(outcome: Outcome<V>) -> (r: Result<V, V>)
    ensures
        match outcome {
            Outcome::Result(v) => r == Ok::<V, V>(v),
            Outcome::Error(v) => r == Err::<V, V>(v),
        },
{
    match outcome {
        Outcome::Result(v) => Ok(v),
        Outcome::Error(e) => Err(e),
    }
}

/// The JSON-RPC version that every message names.
pub const JSONRPC_VERSION_2_0: &'static str = "2.0";

/// That a message is of JSON-RPC 2.0.
#[derive(Debug, Clone, Copy, PartialEq, Eq)]
pub struct Version;

/// Accepts the version of JSON-RPC 2.0, and no other.
pub fn version(version_str: &str) -> (r: Result<Version, FieldError>)
    ensures
        match r {
            Ok(_) => version_str@ == "2.0"@,
            Err(e) => version_str@ != "2.0"@ && e@ == FieldErrorView::WrongVersion,
        },
{
    if !same_text(version_str, JSONRPC_VERSION_2_0) {
        return Err(FieldError::WrongVersion);
    }
    Ok(Version)
}

} // verus!
