//! The consensus encoding of transactions.
//!
//! Numbers are little-endian. A list is its length, as a compact number, and then its items one
//! after the other.

use vstd::prelude::*;

use crate::consensus::{le32_bytes, TransactionView, TxInView, TxOutView};

verus! {

/// The most bytes of a transaction that is read from text, and of the items of a witness.
pub const MAX_SIZE: usize = 4_000_000;

/// The eight little-endian bytes that stand for `n`.
pub open spec fn le64_bytes(n: nat) -> Seq<u8> {
    le32_bytes(n % 0x1_0000_0000) + le32_bytes(n / 0x1_0000_0000)
}

/// The bytes of the compact number `n`: the shortest of four forms.
pub open spec fn compact(n: nat) -> Seq<u8> {
    if n < 0xfd {
        seq![n as u8]
    } else if n < 0x1_0000 {
        seq![0xfdu8, (n % 0x100) as u8, (n / 0x100) as u8]
    } else if n < 0x1_0000_0000 {
        seq![0xfeu8] + le32_bytes(n)
    } else {
        seq![0xffu8] + le64_bytes(n)
    }
}

/// The encoding of a byte string: its length, and its bytes.
pub open spec fn sized(bytes: Seq<u8>) -> Seq<u8> {
    compact(bytes.len()) + bytes
}

/// The encodings of `items`, one after the other.
pub open spec fn joined<T>(encode: spec_fn(T) -> Seq<u8>, items: Seq<T>) -> Seq<u8>
    decreases items.len(),
{
    if items.len() == 0 {
        Seq::empty()
    } else {
        encode(items[0]) + joined(encode, items.drop_first())
    }
}

/// The encoding of a list: its length, and the encodings of its items.
pub open spec fn listed<T>(encode: spec_fn(T) -> Seq<u8>, items: Seq<T>) -> Seq<u8> {
    compact(items.len()) + joined(encode, items)
}

/// The encoding of an input, which leaves out its witness.
pub open spec fn input_bytes(i: TxInView) -> Seq<u8> {
    i.previous_txid + le32_bytes(i.previous_vout as nat) + sized(i.script_sig) + le32_bytes(
        i.sequence as nat,
    )
}

/// The encoding of an output.
pub open spec fn output_bytes(o: TxOutView) -> Seq<u8> {
    le64_bytes(o.value as nat) + sized(o.script_pubkey)
}

/// The encoding of a witness.
pub open spec fn witness_bytes(witness: Seq<Seq<u8>>) -> Seq<u8> {
    listed(|item: Seq<u8>| sized(item), witness)
}

/// Whether a transaction is written with its witnesses: where one of them is not empty, and where
/// there is no input, since the number of inputs would else look like the mark of witnesses.
pub open spec fn has_witness(tx: TransactionView) -> bool {
    tx.input.len() == 0 || exists|i: int|
        0 <= i < tx.input.len() && (#[trigger] tx.input[i]).witness.len() > 0
}

/// The encoding of a transaction.
pub open spec fn transaction_bytes(tx: TransactionView) -> Seq<u8> {
    let version = le32_bytes(
        if tx.version < 0 {
            (tx.version + 0x1_0000_0000) as nat
        } else {
            tx.version as nat
        },
    );
    let body = listed(|i: TxInView| input_bytes(i), tx.input) + listed(
        |o: TxOutView| output_bytes(o),
        tx.output,
    );
    let lock_time = le32_bytes(tx.lock_time as nat);
    if has_witness(tx) {
        version + seq![0u8, 1u8] + body + joined(|i: TxInView| witness_bytes(i.witness), tx.input)
            + lock_time
    } else {
        version + body + lock_time
    }
}

/// Whether the sizes in `tx` are such as a transaction can have: transaction IDs of 32 bytes, and
/// lengths that are compact numbers.
pub open spec fn is_transaction(tx: TransactionView) -> bool {
    &&& tx.input.len() <= u64::MAX
    &&& tx.output.len() <= u64::MAX
    &&& forall|i: int| 0 <= i < tx.input.len() ==> is_input(#[trigger] tx.input[i])
    &&& forall|i: int|
        0 <= i < tx.output.len() ==> (#[trigger] tx.output[i]).script_pubkey.len() <= u64::MAX
}

/// Whether the sizes in `input` are such as an input can have.
pub open spec fn is_input(input: TxInView) -> bool {
    &&& input.previous_txid.len() == 32
    &&& input.script_sig.len() <= u64::MAX
    &&& is_witness(input.witness)
}

/// Whether the sizes in `witness` are such as a witness can have.
pub open spec fn is_witness(witness: Seq<Seq<u8>>) -> bool {
    &&& witness.len() <= u64::MAX
    &&& forall|k: int| 0 <= k < witness.len() ==> (#[trigger] witness[k]).len() <= u64::MAX
}

/// Whether no witness of `tx` has more than [`MAX_SIZE`] bytes of items.
pub open spec fn witnesses_fit(tx: TransactionView) -> bool {
    forall|i: int|
        0 <= i < tx.input.len() ==> joined(
            |item: Seq<u8>| sized(item),
            (#[trigger] tx.input[i]).witness,
        ).len() <= MAX_SIZE
}

/// Whether `s` is the text of the encoding of `tx`, and no longer than a text that is read.
pub open spec fn is_text_of(s: Seq<char>, tx: TransactionView) -> bool {
    &&& is_transaction(tx)
    &&& transaction_bytes(tx).len() <= MAX_SIZE
    &&& crate::consensus::hex_bytes(s) == Some(transaction_bytes(tx))
}

/// Whether `s` is the text of the encoding of a transaction.
pub open spec fn is_text_of_one(s: Seq<char>) -> bool {
    exists|tx: TransactionView| #[trigger] is_text_of(s, tx)
}

/// Whether `data` starts with the encoding of a transaction.
pub open spec fn starts_with_one(data: Seq<u8>) -> bool {
    exists|tx: TransactionView| #[trigger] starts_with(data, tx)
}

/// Whether `data` starts with the encoding of `tx`, and its witnesses are such as are read.
pub open spec fn starts_with(data: Seq<u8>, tx: TransactionView) -> bool {
    &&& is_transaction(tx)
    &&& witnesses_fit(tx)
    &&& transaction_bytes(tx).is_prefix_of(data)
}

// ---------------------------------------------------------------------------------------------
// Encodings can be told apart
// ---------------------------------------------------------------------------------------------
proof fn lemma_le32_apart(a: nat, b: nat, x: Seq<u8>, y: Seq<u8>)
    requires
        a < 0x1_0000_0000,
        b < 0x1_0000_0000,
        le32_bytes(a) + x == le32_bytes(b) + y,
    ensures
        a == b,
        x == y,
{
    let l = le32_bytes(a) + x;
    let r = le32_bytes(b) + y;
    assert(l[0] == r[0] && l[1] == r[1] && l[2] == r[2] && l[3] == r[3]);
    assert(le32_bytes(a)[0] == le32_bytes(b)[0]);
    assert(le32_bytes(a)[1] == le32_bytes(b)[1]);
    assert(le32_bytes(a)[2] == le32_bytes(b)[2]);
    assert(le32_bytes(a)[3] == le32_bytes(b)[3]);
    assert(l.skip(4) =~= x);
    assert(r.skip(4) =~= y);
}

proof fn lemma_le64_apart(a: nat, b: nat, x: Seq<u8>, y: Seq<u8>)
    requires
        a <= u64::MAX,
        b <= u64::MAX,
        le64_bytes(a) + x == le64_bytes(b) + y,
    ensures
        a == b,
        x == y,
{
    let al = le32_bytes(a % 0x1_0000_0000);
    let ah = le32_bytes(a / 0x1_0000_0000);
    let bl = le32_bytes(b % 0x1_0000_0000);
    let bh = le32_bytes(b / 0x1_0000_0000);
    assert(le64_bytes(a) + x =~= al + (ah + x));
    assert(le64_bytes(b) + y =~= bl + (bh + y));
    lemma_le32_apart(a % 0x1_0000_0000, b % 0x1_0000_0000, ah + x, bh + y);
    lemma_le32_apart(a / 0x1_0000_0000, b / 0x1_0000_0000, x, y);
}

proof fn lemma_compact_apart(a: nat, b: nat, x: Seq<u8>, y: Seq<u8>)
    requires
        a <= u64::MAX,
        b <= u64::MAX,
        compact(a) + x == compact(b) + y,
    ensures
        a == b,
        x == y,
{
    let l = compact(a) + x;
    let r = compact(b) + y;
    assert(l[0] == compact(a)[0] && r[0] == compact(b)[0]);
    if a < 0xfd {
        assert(l.skip(1) =~= x);
        assert(r.skip(1) =~= y);
    } else if a < 0x1_0000 {
        assert(b < 0x1_0000);
        assert(l[1] == compact(a)[1] && r[1] == compact(b)[1]);
        assert(l[2] == compact(a)[2] && r[2] == compact(b)[2]);
        assert(l.skip(3) =~= x);
        assert(r.skip(3) =~= y);
    } else if a < 0x1_0000_0000 {
        assert(0x1_0000 <= b < 0x1_0000_0000);
        assert(l.skip(1) =~= le32_bytes(a) + x);
        assert(r.skip(1) =~= le32_bytes(b) + y);
        lemma_le32_apart(a, b, x, y);
    } else {
        assert(b >= 0x1_0000_0000);
        assert(l.skip(1) =~= le64_bytes(a) + x);
        assert(r.skip(1) =~= le64_bytes(b) + y);
        lemma_le64_apart(a, b, x, y);
    }
}

proof fn lemma_sized_apart(a: Seq<u8>, b: Seq<u8>, x: Seq<u8>, y: Seq<u8>)
    requires
        a.len() <= u64::MAX,
        b.len() <= u64::MAX,
        sized(a) + x == sized(b) + y,
    ensures
        a == b,
        x == y,
{
    assert(sized(a) + x =~= compact(a.len()) + (a + x));
    assert(sized(b) + y =~= compact(b.len()) + (b + y));
    lemma_compact_apart(a.len(), b.len(), a + x, b + y);
    let n = a.len() as int;
    assert((a + x).take(n) =~= a);
    assert((b + y).take(n) =~= b);
    assert((a + x).skip(n) =~= x);
    assert((b + y).skip(n) =~= y);
}

/// Whether encodings of items for which `ok` holds can be told apart, whatever follows them.
spec fn told_apart<T>(encode: spec_fn(T) -> Seq<u8>, ok: spec_fn(T) -> bool) -> bool {
    forall|p: T, q: T, x: Seq<u8>, y: Seq<u8>|
        ok(p) && ok(q) && #[trigger] (encode(p) + x) == #[trigger] (encode(q) + y) ==> p == q && x
            == y
}

proof fn lemma_joined_apart<T>(
    encode: spec_fn(T) -> Seq<u8>,
    ok: spec_fn(T) -> bool,
    a: Seq<T>,
    b: Seq<T>,
    x: Seq<u8>,
    y: Seq<u8>,
)
    requires
        told_apart(encode, ok),
        a.len() == b.len(),
        forall|i: int| 0 <= i < a.len() ==> ok(#[trigger] a[i]),
        forall|i: int| 0 <= i < b.len() ==> ok(#[trigger] b[i]),
        joined(encode, a) + x == joined(encode, b) + y,
    ensures
        a == b,
        x == y,
    decreases a.len(),
{
    if a.len() == 0 {
        assert(joined(encode, a) + x =~= x);
        assert(joined(encode, b) + y =~= y);
        assert(a =~= b);
    } else {
        let a1 = a.drop_first();
        let b1 = b.drop_first();
        let xr = joined(encode, a1) + x;
        let yr = joined(encode, b1) + y;
        assert(joined(encode, a) + x =~= encode(a[0]) + xr);
        assert(joined(encode, b) + y =~= encode(b[0]) + yr);
        assert(ok(a[0]) && ok(b[0]));
        assert(a[0] == b[0] && xr == yr);
        assert forall|i: int| 0 <= i < a1.len() implies ok(#[trigger] a1[i]) by {
            assert(ok(a[i + 1]));
        }
        assert forall|i: int| 0 <= i < b1.len() implies ok(#[trigger] b1[i]) by {
            assert(ok(b[i + 1]));
        }
        lemma_joined_apart(encode, ok, a1, b1, x, y);
        assert forall|i: int| 0 <= i < a.len() implies a[i] == b[i] by {
            if i > 0 {
                assert(a[i] == a1[i - 1] && b[i] == b1[i - 1]);
            }
        }
        assert(a =~= b);
    }
}

proof fn lemma_listed_apart<T>(
    encode: spec_fn(T) -> Seq<u8>,
    ok: spec_fn(T) -> bool,
    a: Seq<T>,
    b: Seq<T>,
    x: Seq<u8>,
    y: Seq<u8>,
)
    requires
        told_apart(encode, ok),
        a.len() <= u64::MAX,
        b.len() <= u64::MAX,
        forall|i: int| 0 <= i < a.len() ==> ok(#[trigger] a[i]),
        forall|i: int| 0 <= i < b.len() ==> ok(#[trigger] b[i]),
        listed(encode, a) + x == listed(encode, b) + y,
    ensures
        a == b,
        x == y,
{
    assert(listed(encode, a) + x =~= compact(a.len()) + (joined(encode, a) + x));
    assert(listed(encode, b) + y =~= compact(b.len()) + (joined(encode, b) + y));
    lemma_compact_apart(a.len(), b.len(), joined(encode, a) + x, joined(encode, b) + y);
    lemma_joined_apart(encode, ok, a, b, x, y);
}

/// An input without its witness.
spec fn bare(i: TxInView) -> TxInView {
    TxInView { witness: Seq::empty(), ..i }
}

proof fn lemma_inputs_told_apart()
    ensures
        told_apart(|i: TxInView| input_bytes(i), |i: TxInView| is_input(i) && i == bare(i)),
{
    let encode = |i: TxInView| input_bytes(i);
    assert forall|p: TxInView, q: TxInView, x: Seq<u8>, y: Seq<u8>|
        is_input(p) && p == bare(p) && is_input(q) && q == bare(q) && #[trigger] (encode(p) + x)
            == #[trigger] (encode(q) + y) implies p == q && x == y by {
        let l = encode(p) + x;
        let r = encode(q) + y;
        let pv = le32_bytes(p.previous_vout as nat);
        let qv = le32_bytes(q.previous_vout as nat);
        let ps = le32_bytes(p.sequence as nat);
        let qs = le32_bytes(q.sequence as nat);
        assert(l.take(32) =~= p.previous_txid);
        assert(r.take(32) =~= q.previous_txid);
        assert(l.skip(32) =~= pv + (sized(p.script_sig) + (ps + x)));
        assert(r.skip(32) =~= qv + (sized(q.script_sig) + (qs + y)));
        lemma_le32_apart(
            p.previous_vout as nat,
            q.previous_vout as nat,
            sized(p.script_sig) + (ps + x),
            sized(q.script_sig) + (qs + y),
        );
        lemma_sized_apart(p.script_sig, q.script_sig, ps + x, qs + y);
        lemma_le32_apart(p.sequence as nat, q.sequence as nat, x, y);
    }
}

proof fn lemma_outputs_told_apart()
    ensures
        told_apart(
            |o: TxOutView| output_bytes(o),
            |o: TxOutView| o.script_pubkey.len() <= u64::MAX,
        ),
{
    let encode = |o: TxOutView| output_bytes(o);
    assert forall|p: TxOutView, q: TxOutView, x: Seq<u8>, y: Seq<u8>|
        p.script_pubkey.len() <= u64::MAX && q.script_pubkey.len() <= u64::MAX && #[trigger] (
        encode(p) + x) == #[trigger] (encode(q) + y) implies p == q && x == y by {
        assert(encode(p) + x =~= le64_bytes(p.value as nat) + (sized(p.script_pubkey) + x));
        assert(encode(q) + y =~= le64_bytes(q.value as nat) + (sized(q.script_pubkey) + y));
        lemma_le64_apart(
            p.value as nat,
            q.value as nat,
            sized(p.script_pubkey) + x,
            sized(q.script_pubkey) + y,
        );
        lemma_sized_apart(p.script_pubkey, q.script_pubkey, x, y);
    }
}

proof fn lemma_witnesses_told_apart()
    ensures
        told_apart(
            |w: Seq<Seq<u8>>| witness_bytes(w),
            |w: Seq<Seq<u8>>| is_witness(w),
        ),
{
    let encode = |w: Seq<Seq<u8>>| witness_bytes(w);
    let item = |item: Seq<u8>| sized(item);
    let ok = |item: Seq<u8>| item.len() <= u64::MAX;
    assert(told_apart(item, ok)) by {
        assert forall|p: Seq<u8>, q: Seq<u8>, x: Seq<u8>, y: Seq<u8>|
            ok(p) && ok(q) && #[trigger] (item(p) + x) == #[trigger] (item(q) + y) implies p == q
            && x == y by {
            lemma_sized_apart(p, q, x, y);
        }
    }
    assert forall|p: Seq<Seq<u8>>, q: Seq<Seq<u8>>, x: Seq<u8>, y: Seq<u8>|
        is_witness(p) && is_witness(q) && #[trigger] (encode(p) + x) == #[trigger] (encode(q)
            + y) implies p == q && x == y by {
        lemma_listed_apart(item, ok, p, q, x, y);
    }
}

/// The encodings of inputs are those of the inputs without their witnesses.
proof fn lemma_bare_inputs(inputs: Seq<TxInView>)
    ensures
        joined(|i: TxInView| input_bytes(i), inputs) == joined(
            |i: TxInView| input_bytes(i),
            inputs.map_values(|i: TxInView| bare(i)),
        ),
    decreases inputs.len(),
{
    if inputs.len() > 0 {
        lemma_bare_inputs(inputs.drop_first());
        assert(inputs.map_values(|i: TxInView| bare(i)).drop_first() =~= inputs.drop_first()
            .map_values(|i: TxInView| bare(i)));
    }
}

/// The encodings of the witnesses of inputs are those of a list of witnesses.
proof fn lemma_witness_list(inputs: Seq<TxInView>)
    ensures
        joined(|i: TxInView| witness_bytes(i.witness), inputs) == joined(
            |w: Seq<Seq<u8>>| witness_bytes(w),
            inputs.map_values(|i: TxInView| i.witness),
        ),
    decreases inputs.len(),
{
    if inputs.len() > 0 {
        lemma_witness_list(inputs.drop_first());
        assert(inputs.map_values(|i: TxInView| i.witness).drop_first() =~= inputs.drop_first()
            .map_values(|i: TxInView| i.witness));
    }
}

spec fn version_number(tx: TransactionView) -> nat {
    if tx.version < 0 {
        (tx.version + 0x1_0000_0000) as nat
    } else {
        tx.version as nat
    }
}

/// What follows the version, and the mark of witnesses, of a transaction.
spec fn after_mark(tx: TransactionView) -> Seq<u8> {
    listed(|i: TxInView| input_bytes(i), tx.input) + (listed(
        |o: TxOutView| output_bytes(o),
        tx.output,
    ) + ((if has_witness(tx) {
        joined(|i: TxInView| witness_bytes(i.witness), tx.input)
    } else {
        Seq::empty()
    }) + le32_bytes(tx.lock_time as nat)))
}

proof fn lemma_parts(tx: TransactionView)
    ensures
        transaction_bytes(tx) == le32_bytes(version_number(tx)) + ((if has_witness(tx) {
            seq![0u8, 1u8]
        } else {
            Seq::empty()
        }) + after_mark(tx)),
{
    let whole = le32_bytes(version_number(tx)) + ((if has_witness(tx) {
        seq![0u8, 1u8]
    } else {
        Seq::empty()
    }) + after_mark(tx));
    assert(transaction_bytes(tx) =~= whole);
}

/// A transaction without the mark of witnesses does not look as if it had one.
proof fn lemma_no_mark(tx: TransactionView)
    requires
        is_transaction(tx),
        !has_witness(tx),
    ensures
        after_mark(tx).len() > 0,
        after_mark(tx)[0] != 0,
{
    let n = tx.input.len();
    assert(compact(n).len() > 0 && compact(n)[0] != 0);
    assert(after_mark(tx)[0] == compact(n)[0]);
}

/// The encoding of a transaction, whatever follows it, determines the transaction field by field,
/// and what follows it.
#[verifier::rlimit(40)]
pub proof fn law_transactions_are_told_apart(
    a: TransactionView,
    b: TransactionView,
    x: Seq<u8>,
    y: Seq<u8>,
)
    requires
        is_transaction(a),
        is_transaction(b),
        transaction_bytes(a) + x == transaction_bytes(b) + y,
    ensures
        a == b,
        x == y,
{
    let am = if has_witness(a) {
        seq![0u8, 1u8]
    } else {
        Seq::<u8>::empty()
    };
    let bm = if has_witness(b) {
        seq![0u8, 1u8]
    } else {
        Seq::<u8>::empty()
    };
    lemma_parts(a);
    lemma_parts(b);
    let av = le32_bytes(version_number(a));
    let bv = le32_bytes(version_number(b));
    assert(transaction_bytes(a) + x =~= av + (am + after_mark(a) + x));
    assert(transaction_bytes(b) + y =~= bv + (bm + after_mark(b) + y));
    lemma_le32_apart(
        version_number(a),
        version_number(b),
        am + after_mark(a) + x,
        bm + after_mark(b) + y,
    );
    assert(a.version == b.version);
    let ar = am + after_mark(a) + x;
    let br = bm + after_mark(b) + y;
    if !has_witness(a) {
        lemma_no_mark(a);
        assert(ar[0] == after_mark(a)[0]);
    }
    if !has_witness(b) {
        lemma_no_mark(b);
        assert(br[0] == after_mark(b)[0]);
    }
    assert(has_witness(a) == has_witness(b)) by {
        if has_witness(a) {
            assert(ar[0] == 0);
        }
        if has_witness(b) {
            assert(br[0] == 0);
        }
    }
    let k = am.len() as int;
    assert(ar.skip(k) =~= after_mark(a) + x);
    assert(br.skip(k) =~= after_mark(b) + y);
    lemma_after_mark_apart(a, b, x, y);
}

/// No text is that of the encodings of two transactions.
pub proof fn law_text_of_one_transaction(s: Seq<char>, a: TransactionView, b: TransactionView)
    requires
        is_text_of(s, a),
        is_text_of(s, b),
    ensures
        a == b,
{
    let none = Seq::<u8>::empty();
    assert(transaction_bytes(a) + none == transaction_bytes(b) + none);
    law_transactions_are_told_apart(a, b, none, none);
}

/// No bytes start with the encodings of two transactions.
pub proof fn law_starts_with_one_transaction(
    data: Seq<u8>,
    a: TransactionView,
    b: TransactionView,
)
    requires
        starts_with(data, a),
        starts_with(data, b),
    ensures
        a == b,
{
    let x = data.skip(transaction_bytes(a).len() as int);
    let y = data.skip(transaction_bytes(b).len() as int);
    assert(data =~= transaction_bytes(a) + x);
    assert(data =~= transaction_bytes(b) + y);
    law_transactions_are_told_apart(a, b, x, y);
}

#[verifier::rlimit(40)]
proof fn lemma_after_mark_apart(a: TransactionView, b: TransactionView, x: Seq<u8>, y: Seq<u8>)
    requires
        is_transaction(a),
        is_transaction(b),
        a.version == b.version,
        has_witness(a) == has_witness(b),
        after_mark(a) + x == after_mark(b) + y,
    ensures
        a == b,
        x == y,
{
    let bare_input = |i: TxInView| bare(i);
    let witness_of = |i: TxInView| i.witness;
    let enc_in = |i: TxInView| input_bytes(i);
    let enc_out = |o: TxOutView| output_bytes(o);
    let enc_wit = |w: Seq<Seq<u8>>| witness_bytes(w);
    let a_in = a.input.map_values(bare_input);
    let b_in = b.input.map_values(bare_input);
    let a_lock = le32_bytes(a.lock_time as nat);
    let b_lock = le32_bytes(b.lock_time as nat);
    let a_wit = if has_witness(a) {
        joined(|i: TxInView| witness_bytes(i.witness), a.input)
    } else {
        Seq::<u8>::empty()
    };
    let b_wit = if has_witness(b) {
        joined(|i: TxInView| witness_bytes(i.witness), b.input)
    } else {
        Seq::<u8>::empty()
    };
    let a_end = a_wit + (a_lock + x);
    let b_end = b_wit + (b_lock + y);
    lemma_bare_inputs(a.input);
    lemma_bare_inputs(b.input);
    assert(after_mark(a) + x =~= listed(enc_in, a_in) + (listed(enc_out, a.output) + a_end));
    assert(after_mark(b) + y =~= listed(enc_in, b_in) + (listed(enc_out, b.output) + b_end));
    lemma_inputs_told_apart();
    assert forall|i: int| 0 <= i < a_in.len() implies is_input(#[trigger] a_in[i]) && a_in[i]
        == bare(a_in[i]) by {
        assert(is_input(a.input[i]));
    }
    assert forall|i: int| 0 <= i < b_in.len() implies is_input(#[trigger] b_in[i]) && b_in[i]
        == bare(b_in[i]) by {
        assert(is_input(b.input[i]));
    }
    lemma_listed_apart(
        enc_in,
        |i: TxInView| is_input(i) && i == bare(i),
        a_in,
        b_in,
        listed(enc_out, a.output) + a_end,
        listed(enc_out, b.output) + b_end,
    );
    lemma_outputs_told_apart();
    lemma_listed_apart(
        enc_out,
        |o: TxOutView| o.script_pubkey.len() <= u64::MAX,
        a.output,
        b.output,
        a_end,
        b_end,
    );
    assert(a.input.len() == b.input.len()) by {
        assert(a_in.len() == a.input.len());
        assert(b_in.len() == b.input.len());
    }
    if has_witness(a) {
        lemma_witness_list(a.input);
        lemma_witness_list(b.input);
        lemma_witnesses_told_apart();
        let aw = a.input.map_values(witness_of);
        let bw = b.input.map_values(witness_of);
        assert forall|i: int| 0 <= i < aw.len() implies is_witness(#[trigger] aw[i]) by {
            assert(is_input(a.input[i]));
        }
        assert forall|i: int| 0 <= i < bw.len() implies is_witness(#[trigger] bw[i]) by {
            assert(is_input(b.input[i]));
        }
        lemma_joined_apart(
            enc_wit,
            |w: Seq<Seq<u8>>| is_witness(w),
            aw,
            bw,
            a_lock + x,
            b_lock + y,
        );
        assert forall|i: int| 0 <= i < a.input.len() implies (#[trigger] a.input[i]).witness
            == b.input[i].witness by {
            assert(aw[i] == bw[i]);
        }
    } else {
        assert forall|i: int| 0 <= i < a.input.len() implies (#[trigger] a.input[i]).witness
            == b.input[i].witness by {
            assert(a.input[i].witness =~= Seq::<Seq<u8>>::empty());
            assert(b.input[i].witness.len() == 0);
            assert(b.input[i].witness =~= Seq::<Seq<u8>>::empty());
        }
        assert(a_end =~= a_lock + x);
        assert(b_end =~= b_lock + y);
    }
    lemma_le32_apart(a.lock_time as nat, b.lock_time as nat, x, y);
    assert forall|i: int| 0 <= i < a.input.len() implies a.input[i] == b.input[i] by {
        assert(a_in[i] == b_in[i]);
        assert(bare(a.input[i]) == bare(b.input[i]));
        assert(a.input[i].witness == b.input[i].witness);
    }
    assert(a.input =~= b.input);
}

// ---------------------------------------------------------------------------------------------
// Sizes
// ---------------------------------------------------------------------------------------------
/// The encoding of an item is no longer than those of all.
proof fn lemma_joined_covers<T>(encode: spec_fn(T) -> Seq<u8>, items: Seq<T>, i: int)
    requires
        0 <= i < items.len(),
    ensures
        encode(items[i]).len() <= joined(encode, items).len(),
    decreases items.len(),
{
    if i > 0 {
        lemma_joined_covers(encode, items.drop_first(), i - 1);
    }
}

/// The witnesses of a transaction are no longer than its encoding.
pub proof fn law_short_transactions_have_short_witnesses(tx: TransactionView)
    requires
        transaction_bytes(tx).len() <= MAX_SIZE,
    ensures
        witnesses_fit(tx),
{
    let items = |item: Seq<u8>| sized(item);
    let enc = |i: TxInView| witness_bytes(i.witness);
    assert forall|i: int| 0 <= i < tx.input.len() implies joined(
        items,
        (#[trigger] tx.input[i]).witness,
    ).len() <= MAX_SIZE by {
        if has_witness(tx) {
            lemma_joined_covers(enc, tx.input, i);
            assert(enc(tx.input[i]).len() <= joined(enc, tx.input).len());
            lemma_parts(tx);
        } else {
            assert(tx.input[i].witness.len() == 0);
        }
    }
}

} // verus!
