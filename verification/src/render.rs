//! The text in which transactions and blocks are shown.

use vstd::prelude::*;
use vstd::string::*;

use crate::block::Block;
use crate::model::{BlockView, TransactionView, TxInputView, TxOutputView};
use crate::proofofwork::{nonce_is_valid, ProofOfWork};
use crate::text::{decimal_string, to_decimal};
use crate::transaction::{Transaction, TXInput, TXOutput};

verus! {

/// The decimal numeral of an integer, with a minus sign where it is
/// negative.
pub open spec fn signed_decimal(v: int) -> Seq<char> {
    if v < 0 {
        seq!['-'] + decimal_string((-v) as nat)
    } else {
        decimal_string(v as nat)
    }
}

/// Renders a signed integer as a decimal numeral.
pub fn to_signed_decimal(v: i32) -> (out: String)
    ensures
        out@ == signed_decimal(v as int),
{
    if v < 0 {
        let magnitude: u64 = (-(v as i64)) as u64;
        let mut out = String::new();
        out.push('-');
        let digits = to_decimal(magnitude);
        out.append(digits.as_str());
        assert(out@ =~= seq!['-'] + decimal_string((-v) as nat));
        out
    } else {
        to_decimal(v as u64)
    }
}

/// The first `n` bytes as decimal numerals, separated by a comma and a
/// space.
pub open spec fn listed_bytes(bytes: Seq<u8>, n: nat) -> Seq<char>
    decreases n,
{
    if n == 0 {
        Seq::empty()
    } else if n == 1 {
        decimal_string(bytes[0] as nat)
    } else {
        listed_bytes(bytes, (n - 1) as nat) + seq![',', ' '] + decimal_string(bytes[n - 1] as nat)
    }
}

/// A byte string as a list of decimal numerals in square brackets.
pub open spec fn debug_bytes(bytes: Seq<u8>) -> Seq<char> {
    seq!['['] + listed_bytes(bytes, bytes.len()) + seq![']']
}

/// Renders a byte string as a list of decimal numerals in square
/// brackets.
pub fn to_debug_bytes(bytes: &[u8]) -> (out: String)
    ensures
        out@ == debug_bytes(bytes@),
{
    let mut out = String::new();
    out.push('[');
    let mut i: usize = 0;
    assert(out@ =~= seq!['['] + listed_bytes(bytes@, 0));
    while i < bytes.len()
        invariant
            i <= bytes@.len(),
            out@ == seq!['['] + listed_bytes(bytes@, i as nat),
        decreases bytes@.len() - i,
    {
        let ghost before = listed_bytes(bytes@, i as nat);
        if i > 0 {
            out.push(',');
            out.push(' ');
        }
        let digits = to_decimal(bytes[i] as u64);
        out.append(digits.as_str());
        i += 1;
        proof {
            if i == 1 {
                assert(before =~= Seq::<char>::empty());
                assert(out@ =~= seq!['['] + listed_bytes(bytes@, 1));
            } else {
                assert(out@ =~= seq!['['] + (before + seq![',', ' '] + decimal_string(
                    bytes@[i - 1] as nat,
                )));
            }
        }
    }
    out.push(']');
    assert(out@ =~= debug_bytes(bytes@));
    out
}

/// The text of input number `i`.
pub open spec fn render_input(i: nat, input: TxInputView) -> Seq<char> {
    "     Input "@ + decimal_string(i) + ":\n"@ + "       TXID:      "@ + input.tx_id + "\n"@
        + "       Out:       "@ + signed_decimal(input.v_out as int) + "\n"@
        + "       Signature: "@ + debug_bytes(input.signature) + "\n"@ + "       PubKey:    "@
        + debug_bytes(input.public_key) + "\n\n"@
}

/// The text of output number `i`.
pub open spec fn render_output(i: nat, output: TxOutputView) -> Seq<char> {
    "     Output "@ + decimal_string(i) + ":\n"@ + "       Value:  "@ + signed_decimal(
        output.value as int,
    ) + "\n"@ + "       Script: "@ + debug_bytes(output.pub_key_hash) + "\n\n"@
}

/// The text of the first `n` inputs.
pub open spec fn render_inputs(inputs: Seq<TxInputView>, n: nat) -> Seq<char>
    decreases n,
{
    if n == 0 {
        Seq::empty()
    } else {
        render_inputs(inputs, (n - 1) as nat) + render_input((n - 1) as nat, inputs[n - 1])
    }
}

/// The text of the first `n` outputs.
pub open spec fn render_outputs(outputs: Seq<TxOutputView>, n: nat) -> Seq<char>
    decreases n,
{
    if n == 0 {
        Seq::empty()
    } else {
        render_outputs(outputs, (n - 1) as nat) + render_output((n - 1) as nat, outputs[n - 1])
    }
}

/// The text of a transaction: a heading with its id, its inputs, its
/// outputs.
pub open spec fn render_tx(t: TransactionView) -> Seq<char> {
    "--- Transaction "@ + t.id + ":\n"@ + render_inputs(t.v_in, t.v_in.len()) + render_outputs(
        t.v_out,
        t.v_out.len(),
    )
}

fn input_text(i: usize, input: &TXInput) -> (out: String)
    ensures
        out@ == render_input(i as nat, input@),
{
    let mut out = String::new();
    out.append("     Input ");
    out.append(to_decimal(i as u64).as_str());
    out.append(":\n");
    out.append("       TXID:      ");
    out.append(input.tx_id());
    out.append("\n");
    out.append("       Out:       ");
    out.append(to_signed_decimal(input.v_out()).as_str());
    out.append("\n");
    out.append("       Signature: ");
    out.append(to_debug_bytes(input.signature()).as_str());
    out.append("\n");
    out.append("       PubKey:    ");
    out.append(to_debug_bytes(input.pub_key()).as_str());
    out.append("\n\n");
    assert(out@ =~= render_input(i as nat, input@));
    out
}

fn output_text(i: usize, output: &TXOutput) -> (out: String)
    ensures
        out@ == render_output(i as nat, output@),
{
    let mut out = String::new();
    out.append("     Output ");
    out.append(to_decimal(i as u64).as_str());
    out.append(":\n");
    out.append("       Value:  ");
    out.append(to_signed_decimal(output.value()).as_str());
    out.append("\n");
    out.append("       Script: ");
    out.append(to_debug_bytes(output.pub_key_hash()).as_str());
    out.append("\n\n");
    assert(out@ =~= render_output(i as nat, output@));
    out
}

impl Transaction {
    /// The transaction as text.
    pub fn to_string(&self) -> (lines: String)
        ensures
            lines@ == render_tx(self@),
    {
        let mut lines = String::new();
        lines.append("--- Transaction ");
        lines.append(self.id());
        lines.append(":\n");
        let ghost head = lines@;
        let inputs = self.v_in();
        let mut i: usize = 0;
        assert(lines@ =~= head + render_inputs(self@.v_in, 0));
        while i < inputs.len()
            invariant
                i <= inputs@.len(),
                self@.v_in == crate::transaction::input_views(inputs@),
                lines@ == head + render_inputs(self@.v_in, i as nat),
            decreases inputs@.len() - i,
        {
            let text = input_text(i, &inputs[i]);
            assert(self@.v_in[i as int] == inputs@[i as int]@);
            lines.append(text.as_str());
            i += 1;
            assert(lines@ =~= head + render_inputs(self@.v_in, i as nat));
        }
        let ghost middle = lines@;
        let outputs = self.v_out();
        let mut j: usize = 0;
        assert(lines@ =~= middle + render_outputs(self@.v_out, 0));
        while j < outputs.len()
            invariant
                j <= outputs@.len(),
                self@.v_out == crate::transaction::output_views(outputs@),
                lines@ == middle + render_outputs(self@.v_out, j as nat),
            decreases outputs@.len() - j,
        {
            let text = output_text(j, &outputs[j]);
            assert(self@.v_out[j as int] == outputs@[j as int]@);
            lines.append(text.as_str());
            j += 1;
            assert(lines@ =~= middle + render_outputs(self@.v_out, j as nat));
        }
        assert(lines@ =~= render_tx(self@));
        lines
    }
}

/// The text of the first `n` transactions, each followed by a line feed.
pub open spec fn render_txs(txs: Seq<TransactionView>, n: nat) -> Seq<char>
    decreases n,
{
    if n == 0 {
        Seq::empty()
    } else {
        render_txs(txs, (n - 1) as nat) + render_tx(txs[n - 1]) + "\n"@
    }
}

/// The word for a truth value.
pub open spec fn render_bool(b: bool) -> Seq<char> {
    if b {
        "true"@
    } else {
        "false"@
    }
}

/// The text of a block: its hash, the hash of the block before it,
/// whether its nonce meets the target, and its transactions.
pub open spec fn render_block(b: BlockView) -> Seq<char> {
    "============ Block "@ + b.hash + " ============\n"@ + "Prev. block: "@ + b.prev_block_hash
        + "\n"@ + "PoW: "@ + render_bool(nonce_is_valid(b)) + "\n\n"@ + render_txs(
        b.transactions,
        b.transactions.len(),
    ) + "\n"@
}

/// The text of the first `n` blocks.
pub open spec fn render_blocks(blocks: Seq<BlockView>, n: nat) -> Seq<char>
    decreases n,
{
    if n == 0 {
        Seq::empty()
    } else {
        render_blocks(blocks, (n - 1) as nat) + render_block(blocks[n - 1])
    }
}

/// A block as text.
pub fn block_text(block: &Block) -> (out: String)
    ensures
        out@ == render_block(block@),
{
    let mut out = String::new();
    out.append("============ Block ");
    out.append(block.hash());
    out.append(" ============\n");
    out.append("Prev. block: ");
    out.append(block.prev_block_hash());
    out.append("\n");
    out.append("PoW: ");
    let pow = ProofOfWork::new(block);
    if pow.validate() {
        out.append("true");
    } else {
        out.append("false");
    }
    out.append("\n\n");
    let ghost head = out@;
    let txs = block.transactions();
    let mut i: usize = 0;
    assert(out@ =~= head + render_txs(block@.transactions, 0));
    while i < txs.len()
        invariant
            i <= txs@.len(),
            block@.transactions == crate::transaction::tx_views(txs@),
            out@ == head + render_txs(block@.transactions, i as nat),
        decreases txs@.len() - i,
    {
        let text = txs[i].to_string();
        assert(block@.transactions[i as int] == txs@[i as int]@);
        out.append(text.as_str());
        out.append("\n");
        i += 1;
        assert(out@ =~= head + render_txs(block@.transactions, i as nat));
    }
    out.append("\n");
    assert(out@ =~= render_block(block@));
    out
}

} // verus!
