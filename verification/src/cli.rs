//! What the command line asks for, and what each command does to the
//! chain, the index of unspent outputs and the wallets. Reading the
//! arguments and the environment, opening the stores and printing are
//! left to the program around the library.

use vstd::prelude::*;
use vstd::string::*;
use vstd::utf8::encode_utf8;

use crate::block::{mined_from, unmined, Block};
use crate::blockchain::{
    best_height, chain_sign, chain_verify, lemma_verified_are_checked, lemma_walk_errors,
    with_block, Blockchain, CHECK_KEY, CHECK_VALUE, GENESIS_COINBASE_DATA,
};
use crate::error::Error;
use crate::model::{BlockView, TransactionView, TxOutputView};
use crate::payment::unsigned_payment;
use crate::render::{block_text, render_blocks};
use crate::signature::ed25519_public_key;
use crate::store::{Store, StoreMap, ValueView};
use crate::text::{numeral_i32, parse_i32, str_equal};
use crate::transaction::{
    coinbase, is_random_payload, lemma_coinbase_id, output_views, tx_views, Transaction,
};
use crate::unspent::{unspent, unspent_order};
use crate::utxo_set::{apply_block, choose_within, index_of, owned_within, UTXOSet};
use crate::wallet::{address_key_hash, key_hash, key_hash_of_address, valid_address, Wallet};
use crate::wallets::{wallet_at, Wallets};
use crate::wire::text_views;

verus! {

/// What the command line asks for.
#[derive(Debug)]
pub enum Command {
    /// The arguments name no command, or not in the form that the
    /// command takes: the usage is to be shown.
    Usage,
    CreateBlockchain { address: String },
    CreateWallet,
    GetBalance { address: String },
    ListAddresses,
    PrintChain,
    ReindexUtxo,
    Send { from: String, to: String, amount: i32 },
    StartNode { miner: Option<String> },
}

/// What a command holds.
pub enum CommandView {
    Usage,
    CreateBlockchain { address: Seq<char> },
    CreateWallet,
    GetBalance { address: Seq<char> },
    ListAddresses,
    PrintChain,
    ReindexUtxo,
    Send { from: Seq<char>, to: Seq<char>, amount: i32 },
    StartNode { miner: Option<Seq<char>> },
}

impl View for Command {
    type V = CommandView;

    open spec fn view(&self) -> CommandView {
        match self {
            Command::Usage => CommandView::Usage,
            Command::CreateBlockchain { address } => CommandView::CreateBlockchain {
                address: address@,
            },
            Command::CreateWallet => CommandView::CreateWallet,
            Command::GetBalance { address } => CommandView::GetBalance { address: address@ },
            Command::ListAddresses => CommandView::ListAddresses,
            Command::PrintChain => CommandView::PrintChain,
            Command::ReindexUtxo => CommandView::ReindexUtxo,
            Command::Send { from, to, amount } => CommandView::Send {
                from: from@,
                to: to@,
                amount: *amount,
            },
            Command::StartNode { miner } => CommandView::StartNode {
                miner: match miner {
                    Some(m) => Some(m@),
                    None => None,
                },
            },
        }
    }
}

/// Argument `i` is the word `word`.
pub open spec fn has_word(args: Seq<Seq<char>>, i: int, word: Seq<char>) -> bool {
    i < args.len() && args[i] == word
}

/// The command that the arguments ask for. The first argument is the
/// name of the program.
pub open spec fn parse_args(args: Seq<Seq<char>>) -> CommandView {
    if args.len() < 2 {
        CommandView::Usage
    } else if args[1] == "createblockchain"@ {
        if has_word(args, 2, "-address"@) && args.len() > 3 {
            CommandView::CreateBlockchain { address: args[3] }
        } else {
            CommandView::Usage
        }
    } else if args[1] == "createwallet"@ {
        CommandView::CreateWallet
    } else if args[1] == "getbalance"@ {
        if has_word(args, 2, "-address"@) && args.len() > 3 {
            CommandView::GetBalance { address: args[3] }
        } else {
            CommandView::Usage
        }
    } else if args[1] == "listaddresses"@ {
        CommandView::ListAddresses
    } else if args[1] == "printchain"@ {
        CommandView::PrintChain
    } else if args[1] == "reindexutxo"@ {
        CommandView::ReindexUtxo
    } else if args[1] == "send"@ {
        if has_word(args, 2, "-from"@) && has_word(args, 4, "-to"@) && has_word(
            args,
            6,
            "-amount"@,
        ) && args.len() > 7 {
            match numeral_i32(args[7]) {
                Some(amount) => CommandView::Send { from: args[3], to: args[5], amount },
                None => CommandView::Usage,
            }
        } else {
            CommandView::Usage
        }
    } else if args[1] == "startnode"@ {
        if args.len() == 2 {
            CommandView::StartNode { miner: None }
        } else if has_word(args, 2, "-miner"@) && args.len() > 3 {
            CommandView::StartNode { miner: Some(args[3]) }
        } else {
            CommandView::Usage
        }
    } else {
        CommandView::Usage
    }
}

/// The arguments of the command line.
pub struct CLI<'a> {
    args: &'a [String],
}

impl<'a> CLI<'a> {
    /// The arguments.
    pub closed spec fn args(&self) -> Seq<Seq<char>> {
        text_views(self.args@)
    }

    /// The command line with the given arguments.
    pub fn new(args: &'a [String]) -> (cli: CLI<'a>)
        ensures
            cli.args() == text_views(args@),
    {
        CLI { args }
    }

    /// Whether argument `i` is the word `word`.
    fn word_at(&self, i: usize, word: &str) -> (r: bool)
        ensures
            r == has_word(self.args(), i as int, word@),
    {
        if i < self.args.len() {
            assert(self.args()[i as int] == self.args@[i as int]@);
            str_equal(self.args[i].as_str(), word)
        } else {
            false
        }
    }

    /// Argument `i`.
    fn arg(&self, i: usize) -> (r: String)
        requires
            i < self.args().len(),
        ensures
            r@ == self.args()[i as int],
    {
        assert(self.args()[i as int] == self.args@[i as int]@);
        self.args[i].clone()
    }

    /// The command that the arguments ask for.
    pub fn command(&self) -> (r: Command)
        ensures
            r@ == parse_args(self.args()),
    {
        let n = self.args.len();
        assert(n == self.args().len());
        if n < 2 {
            return Command::Usage;
        }
        if self.word_at(1, "createblockchain") {
            if self.word_at(2, "-address") && n > 3 {
                Command::CreateBlockchain { address: self.arg(3) }
            } else {
                Command::Usage
            }
        } else if self.word_at(1, "createwallet") {
            Command::CreateWallet
        } else if self.word_at(1, "getbalance") {
            if self.word_at(2, "-address") && n > 3 {
                Command::GetBalance { address: self.arg(3) }
            } else {
                Command::Usage
            }
        } else if self.word_at(1, "listaddresses") {
            Command::ListAddresses
        } else if self.word_at(1, "printchain") {
            Command::PrintChain
        } else if self.word_at(1, "reindexutxo") {
            Command::ReindexUtxo
        } else if self.word_at(1, "send") {
            if self.word_at(2, "-from") && self.word_at(4, "-to") && self.word_at(6, "-amount")
                && n > 7 {
                let amount_text = self.arg(7);
                match parse_i32(amount_text.as_str()) {
                    Some(amount) => Command::Send { from: self.arg(3), to: self.arg(5), amount },
                    None => Command::Usage,
                }
            } else {
                Command::Usage
            }
        } else if self.word_at(1, "startnode") {
            if n == 2 {
                Command::StartNode { miner: None }
            } else if self.word_at(2, "-miner") && n > 3 {
                Command::StartNode { miner: Some(self.arg(3)) }
            } else {
                Command::Usage
            }
        } else {
            Command::Usage
        }
    }

    /// The text that explains the commands.
    pub fn usage() -> (text: String)
        ensures
            text@ == "Usage:\n"@
                + "    createblockchain -address ADDRESS - create blockchain and send genesis block reward to ADDRESS\n"@
                + "    createwallet - generates a new key pair and saves it into the wallet file\n"@
                + "    getbalance -address ADDRESS - get balance of ADDRESS\n"@
                + "    listaddresses - lists all addresses from the wallet file\n"@
                + "    printchain - print all the blocks of the blockchain\n"@
                + "    reindexutxo - rebuilds the utxo set\n"@
                + "    send -from FROM -to TO -amount AMOUNT - send AMOUNT of coins from FROM address to TO\n"@
                + "    startnode -miner ADDRESS - start a node with ID specified in NODE_ID env. var. -miner enables mining\n"@,
    {
        let mut text = String::new();
        text.append("Usage:\n");
        text.append(
            "    createblockchain -address ADDRESS - create blockchain and send genesis block reward to ADDRESS\n",
        );
        text.append(
            "    createwallet - generates a new key pair and saves it into the wallet file\n",
        );
        text.append("    getbalance -address ADDRESS - get balance of ADDRESS\n");
        text.append("    listaddresses - lists all addresses from the wallet file\n");
        text.append("    printchain - print all the blocks of the blockchain\n");
        text.append("    reindexutxo - rebuilds the utxo set\n");
        text.append(
            "    send -from FROM -to TO -amount AMOUNT - send AMOUNT of coins from FROM address to TO\n",
        );
        text.append(
            "    startnode -miner ADDRESS - start a node with ID specified in NODE_ID env. var. -miner enables mining\n",
        );
        text
    }

    /// Starts a chain in `store` whose first block pays `address`, and
    /// builds the index of unspent outputs for it. In a store that holds
    /// nothing under the empty key, the chain is then that one block.
    /// Refused where the address is not valid, and then where the store
    /// holds a chain already; fails where the clock or the search for a
    /// nonce fails, and, in a store with a value under the empty key,
    /// where the chain cannot be read from there.
    pub fn create_blockchain(store: Store, address: &str) -> (r: Result<(Blockchain, UTXOSet), Error>)
        ensures
            match r {
                Ok((bc, utxo_set)) => {
                    &&& valid_address(address@)
                    &&& !store@.contains_key(CHECK_KEY@)
                    &&& exists|genesis: BlockView, timestamp: u64|
                        {
                            &&& #[trigger] mined_from(
                                genesis,
                                unmined(
                                    timestamp,
                                    seq![
                                        coinbase(
                                            address_key_hash(address@).unwrap(),
                                            encode_utf8(GENESIS_COINBASE_DATA@),
                                        ),
                                    ],
                                    Seq::empty(),
                                    0,
                                ),
                            )
                            &&& bc.tip() == genesis.hash
                            &&& bc.store_view() == with_block(
                                store@.insert(CHECK_KEY@, ValueView::Text(CHECK_VALUE@)),
                                genesis,
                            )
                            &&& !store@.contains_key(Seq::<char>::empty()) ==> bc.chain() == Ok::<
                                Seq<BlockView>,
                                Error,
                            >(seq![genesis])
                        }
                    &&& bc.chain() matches Ok(blocks)
                    &&& utxo_set.store_view() == index_of(unspent(blocks))
                    &&& utxo_set.keys() == unspent_order(blocks)
                    &&& !store@.contains_key(Seq::<char>::empty()) ==> crate::linkage::in_good_order(
                        bc.store_view(),
                        bc.tip(),
                    )
                    &&& crate::linkage::holds_mined_blocks(store@)
                        ==> crate::linkage::holds_mined_blocks(bc.store_view())
                },
                Err(e) => {
                    &&& e == Error::InvalidAddress <==> !valid_address(address@)
                    &&& e == Error::BlockchainExists <==> valid_address(address@)
                        && store@.contains_key(CHECK_KEY@)
                    &&& {
                        ||| e == Error::InvalidAddress
                        ||| e == Error::BlockchainExists
                        ||| e == Error::ClockBeforeEpoch
                        ||| e == Error::NonceSpaceExhausted
                        ||| store@.contains_key(Seq::<char>::empty()) && (e == Error::Malformed
                            || e == Error::WrongValueKind || e == Error::CyclicChain)
                    }
                },
            },
    {
        if !Wallet::validate_address(address) {
            return Err(Error::InvalidAddress);
        }
        let bc = match Blockchain::create(store, address) {
            Ok(bc) => bc,
            Err(e) => { return Err(e); },
        };
        let mut utxo_set = UTXOSet::new(Store::new());
        proof {
            lemma_walk_errors(bc.store_view(), bc.tip(), bc.fuel());
        }
        match utxo_set.reindex(&bc) {
            Ok(()) => Ok((bc, utxo_set)),
            Err(e) => Err(e),
        }
    }

    /// The sum of the values of the first `n` outputs.
    pub open spec fn total_value(outs: Seq<TxOutputView>, n: nat) -> int
        decreases n,
    {
        if n == 0 {
            0
        } else {
            Self::total_value(outs, (n - 1) as nat) + outs[n - 1].value
        }
    }

    /// Every sum of the first outputs, up to the first `n`, is a 32-bit
    /// integer.
    pub open spec fn totals_fit(outs: Seq<TxOutputView>, n: nat) -> bool {
        forall|k: nat| k <= n ==> i32::MIN <= #[trigger] Self::total_value(outs, k) <= i32::MAX
    }

    /// The balance of an address: the sum of the values of the unspent
    /// outputs that are locked to the key hash that the address names.
    /// Refused where the address is not valid, where the index cannot be
    /// read, and where the sum leaves the range of a 32-bit integer on
    /// the way.
    pub fn get_balance(utxo_set: &UTXOSet, address: &str) -> (r: Result<i32, Error>)
        ensures
            if !valid_address(address@) {
                r matches Err(e) && e == Error::InvalidAddress
            } else {
                address_key_hash(address@) matches Some(lock) && match owned_within(
                    utxo_set.store_view(),
                    utxo_set.keys(),
                    utxo_set.keys().len(),
                    lock,
                ) {
                    Err(e) => r matches Err(x) && x == e,
                    Ok(outs) => if Self::totals_fit(outs, outs.len()) {
                        r matches Ok(balance) && balance == Self::total_value(outs, outs.len())
                    } else {
                        r matches Err(x) && x == Error::AmountOverflow
                    },
                }
            },
    {
        if !Wallet::validate_address(address) {
            return Err(Error::InvalidAddress);
        }
        let pub_key_hash = match key_hash_of_address(address) {
            Ok(h) => h,
            Err(e) => { return Err(e); },
        };
        let utxos = match utxo_set.find_utxo(pub_key_hash.as_slice()) {
            Ok(u) => u,
            Err(e) => { return Err(e); },
        };
        let ghost outs = output_views(utxos@);
        let mut balance: i32 = 0;
        let mut i: usize = 0;
        while i < utxos.len()
            invariant
                i <= utxos@.len(),
                outs == output_views(utxos@),
                valid_address(address@),
                address_key_hash(address@) == Some(pub_key_hash@),
                owned_within(
                    utxo_set.store_view(),
                    utxo_set.keys(),
                    utxo_set.keys().len(),
                    pub_key_hash@,
                ) == Ok::<Seq<TxOutputView>, Error>(outs),
                balance == Self::total_value(outs, i as nat),
                Self::totals_fit(outs, i as nat),
            decreases utxos@.len() - i,
        {
            let value = utxos[i].value();
            assert(outs[i as int] == utxos@[i as int]@);
            let sum: i64 = balance as i64 + value as i64;
            if sum > i32::MAX as i64 || sum < i32::MIN as i64 {
                assert(!(i32::MIN <= Self::total_value(outs, (i + 1) as nat) <= i32::MAX));
                return Err(Error::AmountOverflow);
            }
            balance = sum as i32;
            i += 1;
        }
        Ok(balance)
    }

    /// Rebuilds the index of unspent outputs from the chain and counts
    /// the transactions that have unspent outputs.
    pub fn reindex_utxo(bc: &Blockchain, utxo_set: &mut UTXOSet) -> (r: Result<usize, Error>)
        ensures
            match bc.chain() {
                Ok(blocks) => r matches Ok(count) && final(utxo_set).store_view() == index_of(
                    unspent(blocks),
                ) && count == final(utxo_set).store_view().dom().len(),
                Err(e) => r matches Err(x) && x == e && final(utxo_set).store_view() == old(
                    utxo_set,
                ).store_view(),
            },
    {
        match utxo_set.reindex(bc) {
            Ok(()) => Ok(utxo_set.count_transactions()),
            Err(e) => Err(e),
        }
    }

    /// The chain as text, newest block first.
    pub fn print_chain(bc: &Blockchain) -> (r: Result<String, Error>)
        ensures
            match bc.chain() {
                Ok(blocks) => r matches Ok(text) && text@ == render_blocks(blocks, blocks.len()),
                Err(e) => r matches Err(x) && x == e,
            },
    {
        let blocks = match bc.blocks() {
            Ok(b) => b,
            Err(e) => { return Err(e); },
        };
        let ghost views = crate::blockchain::block_views(blocks@);
        let mut text = String::new();
        let mut i: usize = 0;
        assert(text@ =~= render_blocks(views, 0));
        while i < blocks.len()
            invariant
                i <= blocks@.len(),
                views == crate::blockchain::block_views(blocks@),
                text@ == render_blocks(views, i as nat),
            decreases blocks@.len() - i,
        {
            let one = block_text(&blocks[i]);
            assert(views[i as int] == blocks@[i as int]@);
            text.append(one.as_str());
            i += 1;
        }
        Ok(text)
    }

    /// The payment that `send` makes, or the reason why it makes none:
    /// an address that is not valid; no usable wallet under `from`; an
    /// index that cannot be read; `NotEnoughFunds` where the outputs
    /// chosen for the wallet's key hold less than `amount`;
    /// `AmountOverflow` where the change cannot be counted; a chain
    /// against which the payment cannot be signed. The first of these
    /// that holds decides.
    pub open spec fn payment_for(
        wallets: StoreMap,
        chain: StoreMap,
        tip: Seq<char>,
        fuel: nat,
        index: StoreMap,
        keys: Seq<Seq<char>>,
        from: Seq<char>,
        to: Seq<char>,
        amount: i32,
    ) -> Result<TransactionView, Error> {
        if !valid_address(from) || !valid_address(to) {
            Err(Error::InvalidAddress)
        } else {
            match wallet_at(wallets, from) {
                Err(e) => Err(e),
                Ok(doc) => {
                    let public_key = ed25519_public_key(doc).unwrap();
                    match choose_within(index, keys, keys.len(), key_hash(public_key), amount as int) {
                        Err(e) => Err(e),
                        Ok(chosen) => if chosen.sum < amount {
                            Err(Error::NotEnoughFunds)
                        } else if chosen.sum - amount > i32::MAX {
                            Err(Error::AmountOverflow)
                        } else {
                            chain_sign(
                                chain,
                                tip,
                                fuel,
                                unsigned_payment(
                                    chosen,
                                    public_key,
                                    amount,
                                    address_key_hash(to).unwrap(),
                                ),
                                doc,
                            )
                        },
                    }
                },
            }
        }
    }

    /// The transactions of a block that `send` mines: a coinbase that
    /// pays the key hash `lock` and carries `payload`, then the payment.
    pub open spec fn reward_and_payment(
        lock: Seq<u8>,
        payload: Seq<u8>,
        payment: TransactionView,
    ) -> Seq<TransactionView> {
        seq![coinbase(lock, payload), payment]
    }

    /// The block was mined by `send`: from a coinbase with a payload
    /// drawn at random that pays `lock`, and `payment`, on top of `tip`
    /// at `height`.
    pub open spec fn is_sent_block(
        block: BlockView,
        lock: Seq<u8>,
        payment: TransactionView,
        tip: Seq<char>,
        height: i32,
    ) -> bool {
        exists|timestamp: u64, payload: Seq<u8>|
            {
                &&& is_random_payload(payload)
                &&& mined_from(
                    block,
                    #[trigger] unmined(
                        timestamp,
                        Self::reward_and_payment(lock, payload, payment),
                        tip,
                        height,
                    ),
                )
            }
    }

    /// Sends `amount` from the wallet at `from` to the address `to`:
    /// builds and signs the payment, mines it at once into a block
    /// together with a coinbase that pays `from`, and brings the index of
    /// unspent outputs up to date with that block. Where no payment can
    /// be made, or the height of the tip cannot be read or counted up,
    /// the error says why, and chain and index stay as they were; so
    /// they do where the clock or the search for a nonce fails. Where
    /// the block was mined and the index cannot take it, the chain has
    /// the block and the index stays as it was. The block that comes
    /// back holds the coinbase and the payment, in this order, and
    /// stands on the former tip.
    pub fn send(
        wallets: &Wallets,
        bc: &mut Blockchain,
        utxo_set: &mut UTXOSet,
        from: &str,
        to: &str,
        amount: i32,
    ) -> (r: Result<Block, Error>)
        ensures
            !valid_address(from@) || !valid_address(to@) ==> (r matches Err(e) && e
                == Error::InvalidAddress && final(bc).store_view() == old(bc).store_view()
                && final(utxo_set).store_view() == old(utxo_set).store_view()),
            r is Err ==> final(utxo_set).store_view() == old(utxo_set).store_view()
                && final(utxo_set).keys() == old(utxo_set).keys(),
            match Self::payment_for(
                wallets.store_view(),
                old(bc).store_view(),
                old(bc).tip(),
                old(bc).fuel(),
                old(utxo_set).store_view(),
                old(utxo_set).keys(),
                from@,
                to@,
                amount,
            ) {
                Err(e) => {
                    &&& r matches Err(x) && x == e
                    &&& final(bc).store_view() == old(bc).store_view()
                    &&& final(bc).tip() == old(bc).tip()
                },
                Ok(payment) => match best_height(old(bc).store_view(), old(bc).tip()) {
                    Err(e) => {
                        &&& r matches Err(x) && x == e
                        &&& final(bc).store_view() == old(bc).store_view()
                        &&& final(bc).tip() == old(bc).tip()
                    },
                    Ok(height) => if height == i32::MAX {
                        &&& r matches Err(x) && x == Error::HeightOverflow
                        &&& final(bc).store_view() == old(bc).store_view()
                        &&& final(bc).tip() == old(bc).tip()
                    } else {
                        match r {
                            Ok(block) => {
                                &&& Self::is_sent_block(
                                    block@,
                                    address_key_hash(from@).unwrap(),
                                    payment,
                                    old(bc).tip(),
                                    (height + 1) as i32,
                                )
                                &&& block@.transactions[1] == payment
                            },
                            Err(e) => {
                                ||| {
                                    &&& e == Error::ClockBeforeEpoch || e
                                        == Error::NonceSpaceExhausted
                                    &&& final(bc).store_view() == old(bc).store_view()
                                    &&& final(bc).tip() == old(bc).tip()
                                }
                                ||| exists|block: BlockView|
                                    {
                                        &&& #[trigger] Self::is_sent_block(
                                            block,
                                            address_key_hash(from@).unwrap(),
                                            payment,
                                            old(bc).tip(),
                                            (height + 1) as i32,
                                        )
                                        &&& final(bc).store_view() == with_block(
                                            old(bc).store_view(),
                                            block,
                                        )
                                        &&& final(bc).tip() == block.hash
                                        &&& apply_block(
                                            old(utxo_set).store_view(),
                                            block.transactions,
                                        ) == Err::<StoreMap, Error>(e)
                                    }
                            },
                        }
                    },
                },
            },
            r matches Ok(block) && crate::linkage::in_good_order(old(bc).store_view(), old(bc).tip())
                && !old(bc).store_view().contains_key(block@.hash)
                ==> crate::linkage::in_good_order(final(bc).store_view(), final(bc).tip()),
            match r {
                Ok(block) => crate::linkage::in_good_order(old(bc).store_view(), old(bc).tip())
                    && !old(bc).store_view().contains_key(block@.hash) ==> (old(bc).chain() matches Ok(
                    below,
                ) && final(bc).chain() == Ok::<Seq<BlockView>, Error>(seq![block@] + below)),
                Err(_) => true,
            },
            crate::linkage::holds_mined_blocks(old(bc).store_view())
                ==> crate::linkage::holds_mined_blocks(final(bc).store_view()),
            r matches Ok(block) ==> {
                &&& block@.transactions.len() == 2
                &&& crate::model::is_coinbase(block@.transactions[0])
                &&& crate::model::has_own_id(block@.transactions[0])
                &&& crate::model::has_own_id(block@.transactions[1])
                &&& chain_verify(
                    old(bc).store_view(),
                    old(bc).tip(),
                    old(bc).fuel(),
                    block@.transactions[1],
                ) == Ok::<bool, Error>(true)
                &&& block@.prev_block_hash == old(bc).tip()
                &&& crate::proofofwork::is_mined(block@)
                &&& final(bc).store_view() == with_block(old(bc).store_view(), block@)
                &&& final(bc).tip() == block@.hash
                &&& apply_block(old(utxo_set).store_view(), block@.transactions) == Ok::<
                    StoreMap,
                    Error,
                >(final(utxo_set).store_view())
            },
    {
        if !Wallet::validate_address(from) {
            return Err(Error::InvalidAddress);
        }
        if !Wallet::validate_address(to) {
            return Err(Error::InvalidAddress);
        }
        let wallet = match wallets.get_wallet(from) {
            Ok(w) => w,
            Err(e) => { return Err(e); },
        };
        let tx = match Transaction::new_utxo_tx(&wallet, to, amount, bc, utxo_set) {
            Ok(t) => t,
            Err(e) => { return Err(e); },
        };
        let cbtx = match Transaction::new_coin_base_tx(from, "") {
            Ok(t) => t,
            Err(e) => { return Err(e); },
        };
        let ghost reward = cbtx@;
        let ghost payment = tx@;
        let ghost lock = address_key_hash(from@).unwrap();
        let ghost payload: Seq<u8> = Seq::empty();
        let mut transactions: Vec<Transaction> = Vec::new();
        transactions.push(cbtx);
        transactions.push(tx);
        proof {
            reveal_strlit("");
            payload = choose|payload: Seq<u8>|
                #[trigger] coinbase(lock, payload) == reward && is_random_payload(payload);
            lemma_coinbase_id(lock, payload);
            let both = Self::reward_and_payment(lock, payload, payment);
            assert(tx_views(transactions@) =~= both);
            assert forall|i: int| 0 <= i < both.len() implies chain_verify(
                bc.store_view(),
                bc.tip(),
                bc.fuel(),
                #[trigger] both[i],
            ) == Ok::<bool, Error>(true) by {
                if i == 0 {
                    assert(both[0] == reward);
                } else {
                    assert(both[1] == payment);
                }
            }
            lemma_verified_are_checked(bc.store_view(), bc.tip(), bc.fuel(), both);
        }
        let block = match bc.mine_block(transactions) {
            Ok(b) => b,
            Err(e) => { return Err(e); },
        };
        proof {
            let height = best_height(old(bc).store_view(), old(bc).tip()).unwrap();
            let both = Self::reward_and_payment(lock, payload, payment);
            let timestamp = choose|timestamp: u64|
                mined_from(
                    block@,
                    #[trigger] unmined(timestamp, both, old(bc).tip(), (height + 1) as i32),
                );
            assert(block@.transactions == both);
            assert(Self::is_sent_block(
                block@,
                lock,
                payment,
                old(bc).tip(),
                (height + 1) as i32,
            ));
        }
        match utxo_set.update(&block) {
            Ok(()) => Ok(block),
            Err(e) => Err(e),
        }
    }
}

} // verus!
