use utxo_node::block::Block;
use utxo_node::codec::{
    get_bytes, get_i32, get_str, get_u64, put_bytes, put_i32, put_str, put_u64,
};
use utxo_node::error::Error;
use utxo_node::transaction::{ListedOutput, TXInput, TXOutput, TXOutputs, Transaction};

type InputTuple = (String, i32, Vec<u8>, Vec<u8>);
type OutputTuple = (i32, Vec<u8>);
type TxTuple = (String, Vec<InputTuple>, Vec<OutputTuple>);

fn sample_tx() -> Transaction {
    Transaction::from_parts(
        "abc".to_string(),
        vec![
            TXInput::new("feed", 0, vec![1, 2, 3], vec![4, 5]),
            TXInput::new("", -1, vec![], vec![9; 40]),
        ],
        vec![TXOutput::locked_to(10, vec![7; 20]), TXOutput::locked_to(-3, vec![])],
    )
}

fn tuple_of(tx: &Transaction) -> TxTuple {
    (
        tx.id().to_string(),
        tx.v_in()
            .iter()
            .map(|i| {
                (i.tx_id().to_string(), i.v_out(), i.signature().to_vec(), i.pub_key().to_vec())
            })
            .collect(),
        tx.v_out().iter().map(|o| (o.value(), o.pub_key_hash().to_vec())).collect(),
    )
}

#[test]
fn integers_are_little_endian_at_full_width() {
    let mut out = Vec::new();
    put_u64(&mut out, 0x0102030405060708);
    assert_eq!(out, vec![8, 7, 6, 5, 4, 3, 2, 1]);
    let mut out = Vec::new();
    put_i32(&mut out, -2);
    assert_eq!(out, vec![0xfe, 0xff, 0xff, 0xff]);
    let mut out = Vec::new();
    put_i32(&mut out, 0x01020304);
    assert_eq!(out, vec![4, 3, 2, 1]);
}

#[test]
fn bytes_and_text_carry_a_64_bit_length() {
    let mut out = Vec::new();
    put_bytes(&mut out, &[9, 8]);
    assert_eq!(out, vec![2, 0, 0, 0, 0, 0, 0, 0, 9, 8]);
    let mut out = vec![0xaa];
    put_str(&mut out, "hé");
    assert_eq!(out, vec![0xaa, 3, 0, 0, 0, 0, 0, 0, 0, b'h', 0xc3, 0xa9]);
}

#[test]
fn readers_return_value_and_next_position() {
    let data = vec![0xff, 5, 0, 0, 0, 0, 0, 0, 0, 1, 2, 3, 4, 5, 6];
    assert_eq!(get_u64(&data, 1), Some((5, 9)));
    assert_eq!(get_i32(&data, 9), Some((0x04030201, 13)));
    assert_eq!(get_bytes(&data, 1), Some((vec![1, 2, 3, 4, 5], 14)));
    assert_eq!(get_u64(&data, 8), None);
    assert_eq!(get_i32(&data, 12), None);
    assert_eq!(get_u64(&data, 15), None);
    let short = vec![6, 0, 0, 0, 0, 0, 0, 0, 1, 2, 3, 4, 5];
    assert_eq!(get_bytes(&short, 0), None);
    let huge = vec![0xff; 8];
    assert_eq!(get_bytes(&huge, 0), None);
}

#[test]
fn text_must_be_utf8() {
    let good = vec![2, 0, 0, 0, 0, 0, 0, 0, 0xc3, 0xa9];
    assert_eq!(get_str(&good, 0), Some(("é".to_string(), 10)));
    let bad = vec![2, 0, 0, 0, 0, 0, 0, 0, 0xc3, 0x28];
    assert_eq!(get_str(&bad, 0), None);
}

#[test]
fn transaction_encoding_is_that_of_bincode() {
    let tx = sample_tx();
    assert_eq!(tx.serialize(), bincode::serialize(&tuple_of(&tx)).unwrap());
}

#[test]
fn transaction_round_trip() {
    let tx = sample_tx();
    let back = Transaction::deserialize(tx.serialize()).unwrap();
    assert_eq!(tuple_of(&back), tuple_of(&tx));
    assert_eq!(back.serialize(), tx.serialize());
}

#[test]
fn transaction_decoding_agrees_with_bincode() {
    let tuple: TxTuple = (
        "id".to_string(),
        vec![("prev".to_string(), 3, vec![1], vec![2, 3])],
        vec![(5, vec![1; 20]), (6, vec![2; 20])],
    );
    let bytes = bincode::serialize(&tuple).unwrap();
    let tx = Transaction::deserialize(bytes).unwrap();
    assert_eq!(tuple_of(&tx), tuple);
}

#[test]
fn bytes_after_a_transaction_are_ignored() {
    let tx = sample_tx();
    let mut bytes = tx.serialize();
    bytes.extend_from_slice(&[1, 2, 3]);
    let back = Transaction::deserialize(bytes).unwrap();
    assert_eq!(tuple_of(&back), tuple_of(&tx));
}

#[test]
fn truncated_transaction_is_malformed() {
    let bytes = sample_tx().serialize();
    for cut in [0, 1, 7, 8, 10, bytes.len() / 2, bytes.len() - 1] {
        assert!(matches!(
            Transaction::deserialize(bytes[..cut].to_vec()),
            Err(Error::Malformed)
        ));
    }
}

#[test]
fn transaction_with_an_id_that_is_not_text_is_malformed() {
    let mut bytes = sample_tx().serialize();
    bytes[8] = 0xff;
    assert!(matches!(Transaction::deserialize(bytes), Err(Error::Malformed)));
}

#[test]
fn outputs_round_trip_and_agree_with_bincode() {
    let outs = TXOutputs::new(vec![
        TXOutput::locked_to(1, vec![1; 20]),
        TXOutput::locked_to(i32::MIN, vec![]),
        TXOutput::locked_to(i32::MAX, vec![0xff]),
    ]);
    let bytes = outs.serialize();
    let tuples: Vec<(u64, OutputTuple)> = outs
        .outputs
        .iter()
        .map(|o| (o.number, (o.output.value(), o.output.pub_key_hash().to_vec())))
        .collect();
    assert_eq!(tuples.iter().map(|t| t.0).collect::<Vec<u64>>(), vec![0, 1, 2]);
    assert_eq!(bytes, bincode::serialize(&tuples).unwrap());
    let back = TXOutputs::deserialize(bytes.clone()).unwrap();
    assert_eq!(back.serialize(), bytes);
    assert_eq!(back.outputs.len(), 3);
    assert_eq!(back.outputs[1].number, 1);
    assert_eq!(back.outputs[1].output.value(), i32::MIN);
    assert_eq!(back.outputs[2].output.pub_key_hash(), &[0xff]);
}

#[test]
fn listed_outputs_keep_their_numbers_when_read_back() {
    let kept = TXOutputs {
        outputs: vec![
            ListedOutput { number: 1, output: TXOutput::locked_to(7, vec![2; 20]) },
            ListedOutput { number: 4, output: TXOutput::locked_to(9, vec![3; 20]) },
        ],
    };
    let back = TXOutputs::deserialize(kept.serialize()).unwrap();
    assert_eq!(back.outputs.iter().map(|o| o.number).collect::<Vec<u64>>(), vec![1, 4]);
    assert_eq!(back.outputs.iter().map(|o| o.output.value()).collect::<Vec<i32>>(), vec![7, 9]);
}

#[test]
fn empty_list_of_outputs_round_trips() {
    let outs = TXOutputs::new(vec![]);
    assert_eq!(outs.serialize(), vec![0; 8]);
    assert_eq!(TXOutputs::deserialize(vec![0; 8]).unwrap().outputs.len(), 0);
    assert!(matches!(TXOutputs::deserialize(vec![0; 7]), Err(Error::Malformed)));
    assert!(matches!(TXOutputs::deserialize(vec![1, 0, 0, 0, 0, 0, 0, 0]), Err(Error::Malformed)));
}

#[test]
fn block_round_trip_and_bincode_layout() {
    let block = Block::mine(1_700_000_000, vec![sample_tx(), sample_tx()], "prev", 7).unwrap();
    let bytes = block.serialize();
    let tuple: (u64, Vec<TxTuple>, String, String, u64, i32) = (
        block.timestamp(),
        block.transactions().iter().map(tuple_of).collect(),
        block.prev_block_hash().to_string(),
        block.hash().to_string(),
        block.nonce(),
        block.height(),
    );
    assert_eq!(bytes, bincode::serialize(&tuple).unwrap());
    let back = Block::deserialize(bytes.clone()).unwrap();
    assert_eq!(back.serialize(), bytes);
    assert_eq!(back.timestamp(), 1_700_000_000);
    assert_eq!(back.prev_block_hash(), "prev");
    assert_eq!(back.hash(), block.hash());
    assert_eq!(back.nonce(), block.nonce());
    assert_eq!(back.height(), 7);
    assert_eq!(back.transactions().len(), 2);
}

#[test]
fn block_without_transactions_is_refused() {
    let tuple: (u64, Vec<TxTuple>, String, String, u64, i32) =
        (1, vec![], "p".to_string(), "h".to_string(), 2, 3);
    let bytes = bincode::serialize(&tuple).unwrap();
    assert!(matches!(Block::deserialize(bytes), Err(Error::Malformed)));
}

#[test]
fn truncated_block_is_malformed() {
    let block = Block::mine(5, vec![sample_tx()], "", 0).unwrap();
    let bytes = block.serialize();
    for cut in [0, 4, 8, 20, bytes.len() - 1] {
        assert!(matches!(Block::deserialize(bytes[..cut].to_vec()), Err(Error::Malformed)));
    }
}
