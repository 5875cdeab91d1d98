use electrum_streaming_client::consensus::{Amount, Header, Transaction};
use electrum_streaming_client::custom_serde::{
    all_inputs_confirmed_bool_from_height, amount_from_maybe_negative_sats, amount_from_sats,
    feerate_from_btc_per_kb, feerate_opt_from_btc_per_kb, from_consensus_bytes,
    from_consensus_hex, from_hex_list, headers_from_hex_or_list, result, version, weight_from_vb,
    BtcPerKvb, FeeRate, FieldError, Outcome, Value, Version, Weight, JSONRPC_VERSION_2_0,
};

/// The header of the first block of the main chain.
const GENESIS_HEADER: &str = "0100000000000000000000000000000000000000000000000000000000000000000000003ba3edfd7a7b12b27ac72c3e67768f617fc81bc3888a51323a9fb8aa4b1e5e4a29ab5f49ffff001d1dac2b7c";

/// The transaction of that block.
const GENESIS_TX: &str = "01000000010000000000000000000000000000000000000000000000000000000000000000ffffffff4d04ffff001d0104455468652054696d65732030332f4a616e2f32303039204368616e63656c6c6f72206f6e206272696e6b206f66207365636f6e64206261696c6f757420666f722062616e6b73ffffffff0100f2052a01000000434104678afdb0fe5548271967f1a67130b7105cd6a828e03909a67962e0ea1f61deb649f6bc3f4cef38c4f35504e51ec112de5c384df7ba0b8d578a4c702b6bf11d5fac00000000";

fn text(s: &str) -> Value {
    Value::String(s.to_string())
}

#[test]
fn headers_from_hex_or_list_accepts_both_formats() {
    // Any 80 bytes parse as a Header structurally; the test just checks both paths agree.
    let h0 = "00".repeat(80);
    let h1 = "ff".repeat(80);

    let concatenated: Vec<Header> =
        headers_from_hex_or_list(&text(&format!("{h0}{h1}"))).unwrap();
    let array: Vec<Header> =
        headers_from_hex_or_list(&Value::Array(vec![text(&h0), text(&h1)])).unwrap();

    assert_eq!(concatenated.len(), 2);
    assert_eq!(concatenated, array);
}

#[test]
fn headers_from_hex_or_list_rejects_other_types() {
    assert!(headers_from_hex_or_list::<Header>(&Value::Number("42".to_string())).is_err());
}

#[test]
fn other_types_are_named_in_the_error() {
    for value in [
        Value::Null,
        Value::Bool(true),
        Value::Number("42".to_string()),
        Value::Object(vec![("hex".to_string(), text(""))]),
    ] {
        let e = headers_from_hex_or_list::<Header>(&value).unwrap_err();
        assert_eq!(
            e.to_string(),
            "expected a hex string or array of hex strings for headers"
        );
    }
}

#[test]
fn an_element_of_another_type_is_refused() {
    let list = Value::Array(vec![text(GENESIS_HEADER), Value::Null]);
    let e = headers_from_hex_or_list::<Header>(&list).unwrap_err();
    assert_eq!(e.to_string(), "expected hex string in headers array");
}

#[test]
fn the_first_wrong_element_decides() {
    let list = vec![text("zz"), Value::Null];
    let e = from_hex_list::<Header>(&list).unwrap_err();
    let expected = bitcoin::consensus::encode::deserialize_hex::<bitcoin::block::Header>("zz")
        .unwrap_err()
        .to_string();
    assert_eq!(e, FieldError::Consensus(expected));
}

#[test]
fn nothing_is_no_headers() {
    assert_eq!(headers_from_hex_or_list::<Header>(&text("")), Ok(vec![]));
    assert_eq!(
        headers_from_hex_or_list::<Header>(&Value::Array(vec![])),
        Ok(vec![])
    );
}

#[test]
fn header_fields_are_read_as_bitcoin_reads_them() {
    let header: Header = from_consensus_hex(GENESIS_HEADER).unwrap();
    assert_eq!(header.version, 1);
    assert_eq!(header.prev_blockhash.0, [0; 32]);
    assert_eq!(header.time, 1231006505);
    assert_eq!(header.bits, 0x1d00ffff);
    assert_eq!(header.nonce, 2083236893);

    let bytes: Vec<u8> = (0..80).map(|i| 255 - i as u8).collect();
    let theirs: bitcoin::block::Header = bitcoin::consensus::deserialize(&bytes).unwrap();
    let ours: Vec<Header> = from_consensus_bytes(&bytes).unwrap();
    assert_eq!(ours.len(), 1);
    assert_eq!(ours[0].version, theirs.version.to_consensus());
    assert_eq!(
        ours[0].prev_blockhash.0,
        bitcoin::hashes::Hash::to_byte_array(theirs.prev_blockhash)
    );
    assert_eq!(
        ours[0].merkle_root.0,
        bitcoin::hashes::Hash::to_byte_array(theirs.merkle_root)
    );
    assert_eq!(ours[0].time, theirs.time);
    assert_eq!(ours[0].bits, theirs.bits.to_consensus());
    assert_eq!(ours[0].nonce, theirs.nonce);
}

#[test]
fn hex_errors_are_those_of_bitcoin() {
    for bad in ["0", "zz", "0g", "é0", &GENESIS_HEADER[1..]] {
        let e = headers_from_hex_or_list::<Header>(&text(bad)).unwrap_err();
        let theirs = <Vec<u8> as bitcoin::hex::FromHex>::from_hex(bad).unwrap_err();
        assert_eq!(e, FieldError::Hex(theirs.to_string()), "{bad}");
    }
}

#[test]
fn consensus_errors_are_those_of_bitcoin() {
    for bad in ["", "00", "zz", "0", &"00".repeat(79), &"00".repeat(81)] {
        let e = from_consensus_hex::<Header>(bad).unwrap_err();
        let theirs = bitcoin::consensus::encode::deserialize_hex::<bitcoin::block::Header>(bad)
            .unwrap_err();
        assert_eq!(e, FieldError::Consensus(theirs.to_string()), "{bad}");
        assert_eq!(e.to_string(), theirs.to_string());
    }
    let e = headers_from_hex_or_list::<Header>(&text(&"00".repeat(81))).unwrap_err();
    let theirs = bitcoin::consensus::deserialize_partial::<bitcoin::block::Header>(&[0])
        .unwrap_err();
    assert_eq!(e, FieldError::Consensus(theirs.to_string()));
}

#[test]
fn headers_take_eighty_bytes_each() {
    for n in 0..4usize {
        let bytes: Vec<u8> = (0..80 * n).map(|i| i as u8).collect();
        let headers: Vec<Header> = from_consensus_bytes(&bytes).unwrap();
        assert_eq!(headers.len(), n);
        for (i, header) in headers.iter().enumerate() {
            let alone: Vec<Header> = from_consensus_bytes(&bytes[80 * i..80 * i + 80]).unwrap();
            assert_eq!(alone[0], *header);
        }
        let mut more = bytes.clone();
        more.push(0);
        assert!(from_consensus_bytes::<Header>(&more).is_err());
    }
}

#[test]
fn encoded_headers_read_back_in_both_formats() {
    for n in 0..4u32 {
        let theirs: Vec<bitcoin::block::Header> = (0..n)
            .map(|i| bitcoin::block::Header {
                version: bitcoin::block::Version::from_consensus(-1 - i as i32),
                prev_blockhash: bitcoin::hashes::Hash::from_byte_array([i as u8; 32]),
                merkle_root: bitcoin::hashes::Hash::from_byte_array([0xa0 + i as u8; 32]),
                time: 0x0102_0304 + i,
                bits: bitcoin::CompactTarget::from_consensus(0xf1f2_f3f4 - i),
                nonce: u32::MAX - i,
            })
            .collect();
        let texts: Vec<String> = theirs
            .iter()
            .map(bitcoin::consensus::encode::serialize_hex)
            .collect();
        let list = Value::Array(texts.iter().map(|s| text(s)).collect());
        let from_list: Vec<Header> = headers_from_hex_or_list(&list).unwrap();
        let from_text: Vec<Header> = headers_from_hex_or_list(&text(&texts.concat())).unwrap();
        assert_eq!(from_list, from_text);
        assert_eq!(from_list.len(), theirs.len());
        for (ours, theirs) in from_list.iter().zip(&theirs) {
            assert_eq!(ours.version, theirs.version.to_consensus());
            assert_eq!(
                ours.prev_blockhash.0,
                bitcoin::hashes::Hash::to_byte_array(theirs.prev_blockhash)
            );
            assert_eq!(
                ours.merkle_root.0,
                bitcoin::hashes::Hash::to_byte_array(theirs.merkle_root)
            );
            assert_eq!(ours.time, theirs.time);
            assert_eq!(ours.bits, theirs.bits.to_consensus());
            assert_eq!(ours.nonce, theirs.nonce);
        }
    }
}

#[test]
fn encoded_transactions_read_back_in_both_formats() {
    let list = Value::Array(vec![text(GENESIS_TX), text(GENESIS_TX)]);
    let from_list: Vec<Transaction> = headers_from_hex_or_list(&list).unwrap();
    let from_text: Vec<Transaction> =
        headers_from_hex_or_list(&text(&format!("{GENESIS_TX}{GENESIS_TX}"))).unwrap();
    assert_eq!(from_list.len(), 2);
    assert_eq!(from_list, from_text);
}

#[test]
fn transactions_are_read_as_bitcoin_reads_them() {
    let tx: Transaction = from_consensus_hex(GENESIS_TX).unwrap();
    let theirs: bitcoin::Transaction =
        bitcoin::consensus::encode::deserialize_hex(GENESIS_TX).unwrap();
    assert_eq!(tx.version, 1);
    assert_eq!(tx.lock_time, 0);
    assert_eq!(tx.input.len(), 1);
    assert_eq!(tx.input[0].previous_txid.0, [0; 32]);
    assert_eq!(tx.input[0].previous_vout, u32::MAX);
    assert_eq!(tx.input[0].script_sig, theirs.input[0].script_sig.to_bytes());
    assert_eq!(tx.output.len(), 1);
    assert_eq!(tx.output[0].value, Amount { sat: 5_000_000_000 });
    assert_eq!(
        tx.output[0].script_pubkey,
        theirs.output[0].script_pubkey.to_bytes()
    );

    let twice: Vec<Transaction> =
        headers_from_hex_or_list(&text(&format!("{GENESIS_TX}{GENESIS_TX}"))).unwrap();
    assert_eq!(twice.len(), 2);
    assert_eq!(twice[0].version, tx.version);

    let e = from_consensus_hex::<Transaction>(&GENESIS_TX[2..]).unwrap_err();
    let theirs = bitcoin::consensus::encode::deserialize_hex::<bitcoin::Transaction>(
        &GENESIS_TX[2..],
    )
    .unwrap_err();
    assert_eq!(e, FieldError::Consensus(theirs.to_string()));

    let e = headers_from_hex_or_list::<Transaction>(&text("00")).unwrap_err();
    let theirs =
        bitcoin::consensus::deserialize_partial::<bitcoin::Transaction>(&[0]).unwrap_err();
    assert_eq!(e, FieldError::Consensus(theirs.to_string()));
}

#[test]
fn fee_rates_are_refused_or_absent_if_negative() {
    let rate = BtcPerKvb { negative: false, sat_per_kwu: 250 };
    assert_eq!(feerate_from_btc_per_kb(rate), Ok(FeeRate { sat_per_kwu: 250 }));
    assert_eq!(
        feerate_opt_from_btc_per_kb(rate),
        Ok(Some(FeeRate { sat_per_kwu: 250 }))
    );

    let none = BtcPerKvb { negative: true, sat_per_kwu: 25_000_000 };
    let e = feerate_from_btc_per_kb(none).unwrap_err();
    assert_eq!(e, FieldError::NegativeFeeRate);
    assert_eq!(e.to_string(), "expected non-negative fee rate in BTC/kvB");
    assert_eq!(feerate_opt_from_btc_per_kb(none), Ok(None));
}

#[test]
fn a_virtual_byte_is_four_weight_units() {
    assert_eq!(weight_from_vb(250), Ok(Weight { wu: 1000 }));
    assert_eq!(weight_from_vb(u64::MAX / 4), Ok(Weight { wu: u64::MAX / 4 * 4 }));
    let e = weight_from_vb(u64::MAX / 4 + 1).unwrap_err();
    assert_eq!(e, FieldError::WeightOverflow);
    assert_eq!(e.to_string(), "overflow: vb value cannot fit in to WU");
}

#[test]
fn amounts_lose_their_sign() {
    assert_eq!(amount_from_sats(21), Amount { sat: 21 });
    assert_eq!(amount_from_maybe_negative_sats(21), Amount { sat: 21 });
    assert_eq!(amount_from_maybe_negative_sats(-21), Amount { sat: 21 });
    assert_eq!(
        amount_from_maybe_negative_sats(i64::MIN),
        Amount { sat: 9_223_372_036_854_775_808 }
    );
}

#[test]
fn heights_tell_of_confirmed_inputs() {
    assert_eq!(all_inputs_confirmed_bool_from_height(0), Ok(true));
    assert_eq!(all_inputs_confirmed_bool_from_height(-1), Ok(false));
    for (height, message) in [
        (1, "invalid value: integer `1`, expected 0 or -1"),
        (-2, "invalid value: integer `-2`, expected 0 or -1"),
        (i64::MIN, "invalid value: integer `-9223372036854775808`, expected 0 or -1"),
    ] {
        let e = all_inputs_confirmed_bool_from_height(height).unwrap_err();
        assert_eq!(e, FieldError::UnexpectedHeight(height));
        assert_eq!(e.to_string(), message);
        let theirs: serde_json::Error = serde::de::Error::invalid_value(
            serde::de::Unexpected::Signed(height),
            &"0 or -1",
        );
        assert_eq!(theirs.to_string(), message);
    }
}

#[test]
fn results_and_errors_are_told_apart() {
    assert_eq!(result(Outcome::Result(text("a"))), Ok(text("a")));
    assert_eq!(result(Outcome::Error(text("b"))), Err(text("b")));
}

#[test]
fn one_version_is_accepted() {
    assert_eq!(version(JSONRPC_VERSION_2_0), Ok(Version));
    for other in ["", "2", "2.0 ", "1.0", "2.00"] {
        let e = version(other).unwrap_err();
        assert_eq!(e, FieldError::WrongVersion);
        assert_eq!(e.to_string(), "JSON-RPC version is not 2.0");
    }
}
