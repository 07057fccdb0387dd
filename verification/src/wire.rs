//! The messages that nodes send each other. A request is a command name,
//! a line feed, and a payload in the binary encoding of the node.

use vstd::prelude::*;
use vstd::slice::*;
use vstd::string::*;
use vstd::utf8::*;

use crate::codec::{
    dec_bytes, dec_i32, dec_items, dec_seq, dec_str, enc_bytes, enc_i32, enc_items, enc_seq,
    enc_str, enc_u64, get_bytes, get_i32, get_str, get_u64, inverts, lemma_bytes_round_trip,
    lemma_i32_round_trip, lemma_seq_round_trip, lemma_str_round_trip, put_bytes, put_i32, put_str,
    put_u64, reads, text_fits, Decoded,
};
use crate::error::Error;
use crate::text::bytes_equal;

verus! {

/// The byte that ends the command name.
pub const LINE_FEED: u8 = 10;

/// The request that carries `payload` under the command `command`.
pub open spec fn frame(command: Seq<char>, payload: Seq<u8>) -> Seq<u8> {
    encode_utf8(command) + seq![LINE_FEED] + payload
}

/// Builds a request.
pub fn make_request(command: &str, payload: &[u8]) -> (request: Vec<u8>)
    ensures
        request@ == frame(command@, payload@),
{
    let mut request: Vec<u8> = Vec::new();
    request.extend_from_slice(command.as_bytes());
    request.push(LINE_FEED);
    request.extend_from_slice(payload);
    assert(request@ =~= frame(command@, payload@));
    request
}

/// The position of the first line feed at or after `from`.
pub open spec fn line_feed_from(data: Seq<u8>, from: int) -> Option<int>
    decreases data.len() - from,
{
    if from >= data.len() {
        None
    } else if data[from] == LINE_FEED {
        Some(from)
    } else {
        line_feed_from(data, from + 1)
    }
}

/// A request split at its first line feed: the bytes of the command
/// name, and the payload. `None` where there is no line feed.
pub open spec fn split_at_line_feed(data: Seq<u8>) -> Option<(Seq<u8>, Seq<u8>)> {
    match line_feed_from(data, 0) {
        Some(k) => Some((data.take(k), data.skip(k + 1))),
        None => None,
    }
}

/// Splits a request at its first line feed into the bytes of the command
/// name and the payload.
pub fn split_request(data: &[u8]) -> (r: Option<(Vec<u8>, Vec<u8>)>)
    ensures
        split_at_line_feed(data@) == match r {
            Some((command, payload)) => Some((command@, payload@)),
            None => None,
        },
{
    let mut k: usize = 0;
    while k < data.len()
        invariant
            k <= data@.len(),
            line_feed_from(data@, 0) == line_feed_from(data@, k as int),
        decreases data@.len() - k,
    {
        if data[k] == LINE_FEED {
            let command = slice_to_vec(slice_subrange(data, 0, k));
            let payload = slice_to_vec(slice_subrange(data, k + 1, data.len()));
            proof {
                assert(command@ =~= data@.take(k as int));
                assert(payload@ =~= data@.skip(k + 1));
            }
            return Some((command, payload));
        }
        k += 1;
    }
    None
}

/// A request that was built from a command name without a line feed
/// splits into that name and its payload.
pub proof fn lemma_frame_splits(command: Seq<char>, payload: Seq<u8>)
    requires
        forall|i: int| 0 <= i < encode_utf8(command).len() ==> encode_utf8(command)[i] != LINE_FEED,
    ensures
        split_at_line_feed(frame(command, payload)) == Some((encode_utf8(command), payload)),
{
    let name = encode_utf8(command);
    let data = frame(command, payload);
    lemma_line_feed_after(data, name.len() as int, 0);
    assert(data.take(name.len() as int) =~= name);
    assert(data.skip(name.len() as int + 1) =~= payload);
}

/// Where no line feed stands before `k` and one stands at `k`, the first
/// line feed from any earlier position on is at `k`.
proof fn lemma_line_feed_after(data: Seq<u8>, k: int, from: int)
    requires
        0 <= from <= k < data.len(),
        data[k] == LINE_FEED,
        forall|i: int| 0 <= i < k ==> data[i] != LINE_FEED,
    ensures
        line_feed_from(data, from) == Some(k),
    decreases k - from,
{
    if from < k {
        lemma_line_feed_after(data, k, from + 1);
    }
}

/// The commands of the protocol.
#[derive(Debug, Clone, Copy, PartialEq, Eq, Structural)]
pub enum Command {
    Addr,
    Block,
    Inv,
    GetBlocks,
    GetData,
    Tx,
    Version,
}

/// The name under which a command is sent.
pub open spec fn command_name(command: Command) -> Seq<char> {
    match command {
        Command::Addr => "addr"@,
        Command::Block => "block"@,
        Command::Inv => "inv"@,
        Command::GetBlocks => "getblocks"@,
        Command::GetData => "getdata"@,
        Command::Tx => "tx"@,
        Command::Version => "version"@,
    }
}

/// The command that the bytes name, if any.
pub open spec fn named_command(name: Seq<u8>) -> Option<Command> {
    if name == encode_utf8(command_name(Command::Addr)) {
        Some(Command::Addr)
    } else if name == encode_utf8(command_name(Command::Block)) {
        Some(Command::Block)
    } else if name == encode_utf8(command_name(Command::Inv)) {
        Some(Command::Inv)
    } else if name == encode_utf8(command_name(Command::GetBlocks)) {
        Some(Command::GetBlocks)
    } else if name == encode_utf8(command_name(Command::GetData)) {
        Some(Command::GetData)
    } else if name == encode_utf8(command_name(Command::Tx)) {
        Some(Command::Tx)
    } else if name == encode_utf8(command_name(Command::Version)) {
        Some(Command::Version)
    } else {
        None
    }
}

impl Command {
    /// The name under which the command is sent.
    pub fn name(&self) -> (name: &'static str)
        ensures
            name@ == command_name(*self),
    {
        match self {
            Command::Addr => "addr",
            Command::Block => "block",
            Command::Inv => "inv",
            Command::GetBlocks => "getblocks",
            Command::GetData => "getdata",
            Command::Tx => "tx",
            Command::Version => "version",
        }
    }

    /// Recognises a command by its name.
    pub fn parse(name: &[u8]) -> (r: Option<Command>)
        ensures
            r == named_command(name@),
    {
        if bytes_equal(name, Command::Addr.name().as_bytes()) {
            Some(Command::Addr)
        } else if bytes_equal(name, Command::Block.name().as_bytes()) {
            Some(Command::Block)
        } else if bytes_equal(name, Command::Inv.name().as_bytes()) {
            Some(Command::Inv)
        } else if bytes_equal(name, Command::GetBlocks.name().as_bytes()) {
            Some(Command::GetBlocks)
        } else if bytes_equal(name, Command::GetData.name().as_bytes()) {
            Some(Command::GetData)
        } else if bytes_equal(name, Command::Tx.name().as_bytes()) {
            Some(Command::Tx)
        } else if bytes_equal(name, Command::Version.name().as_bytes()) {
            Some(Command::Version)
        } else {
            None
        }
    }
}

/// The kinds of thing that an inventory lists and a request for data
/// asks for.
#[derive(Debug, Clone, Copy, PartialEq, Eq, Structural)]
pub enum Kind {
    Block,
    Tx,
}

/// The name under which a kind is sent.
pub open spec fn kind_name(kind: Kind) -> Seq<char> {
    match kind {
        Kind::Block => "block"@,
        Kind::Tx => "tx"@,
    }
}

/// The kind that a text names, if any.
pub open spec fn named_kind(name: Seq<char>) -> Option<Kind> {
    if name == kind_name(Kind::Block) {
        Some(Kind::Block)
    } else if name == kind_name(Kind::Tx) {
        Some(Kind::Tx)
    } else {
        None
    }
}

impl Kind {
    /// The name under which the kind is sent.
    pub fn name(&self) -> (name: &'static str)
        ensures
            name@ == kind_name(*self),
    {
        match self {
            Kind::Block => "block",
            Kind::Tx => "tx",
        }
    }

    /// Recognises a kind by its name.
    pub fn parse(name: &str) -> (r: Option<Kind>)
        ensures
            r == named_kind(name@),
    {
        if crate::text::str_equal(name, Kind::Block.name()) {
            Some(Kind::Block)
        } else if crate::text::str_equal(name, Kind::Tx.name()) {
            Some(Kind::Tx)
        } else {
            None
        }
    }
}

/// `enc_str` as a value.
pub open spec fn text_encoder() -> spec_fn(Seq<char>) -> Seq<u8> {
    |s: Seq<char>| enc_str(s)
}

/// `dec_str` as a value.
pub open spec fn text_decoder() -> spec_fn(Seq<u8>) -> Decoded<Seq<char>> {
    |b: Seq<u8>| dec_str(b)
}

/// The contents of a list of texts.
pub open spec fn text_views(v: Seq<String>) -> Seq<Seq<char>> {
    v.map_values(|s: String| s@)
}

/// A list of texts: its length, then the texts.
pub open spec fn enc_texts(items: Seq<Seq<char>>) -> Seq<u8> {
    enc_seq(items, text_encoder())
}

/// Takes a list of texts from the front.
pub open spec fn dec_texts(bytes: Seq<u8>) -> Decoded<Seq<Seq<char>>> {
    dec_seq(bytes, text_decoder())
}

/// The lengths of and inside a list of texts can be counted in 64 bits.
pub open spec fn texts_fit(items: Seq<Seq<char>>) -> bool {
    items.len() <= u64::MAX && forall|i: int| 0 <= i < items.len() ==> text_fits(#[trigger] items[i])
}

/// Decoding the encoding of a list of texts gives the list back.
pub proof fn lemma_texts_round_trip(items: Seq<Seq<char>>, rest: Seq<u8>)
    requires
        texts_fit(items),
    ensures
        dec_texts(enc_texts(items) + rest) == Some((items, rest)),
{
    assert forall|i: int| 0 <= i < items.len() implies inverts(
        text_decoder(),
        text_encoder(),
        #[trigger] items[i],
    ) by {
        assert forall|r: Seq<u8>| #[trigger]
            text_decoder()(text_encoder()(items[i]) + r) == Some((items[i], r)) by {
            lemma_str_round_trip(items[i], r);
        }
    }
    lemma_seq_round_trip(items, text_encoder(), text_decoder(), rest);
}

/// Appends the encoding of a list of texts.
pub fn put_texts(out: &mut Vec<u8>, v: &[String])
    ensures
        final(out)@ == old(out)@ + enc_texts(text_views(v@)),
        texts_fit(text_views(v@)),
{
    put_u64(out, v.len() as u64);
    let ghost views = text_views(v@);
    let ghost head = old(out)@ + enc_u64(v@.len() as u64);
    let mut i: usize = 0;
    assert(enc_items(views.take(0), text_encoder()) =~= Seq::<u8>::empty());
    assert(out@ =~= head + enc_items(views.take(0), text_encoder()));
    while i < v.len()
        invariant
            i <= v@.len(),
            views == text_views(v@),
            out@ == head + enc_items(views.take(i as int), text_encoder()),
            forall|j: int| 0 <= j < i ==> text_fits(#[trigger] views[j]),
        decreases v@.len() - i,
    {
        put_str(out, v[i].as_str());
        i += 1;
        proof {
            let t = views.take(i as int);
            assert(t.drop_last() =~= views.take(i - 1));
            assert(t.last() == v@[i - 1]@);
            assert(out@ =~= head + enc_items(t, text_encoder()));
        }
    }
    assert(views.take(i as int) =~= views);
    assert(out@ =~= old(out)@ + enc_seq(views, text_encoder()));
}

/// Reads a list of texts at `pos`.
pub fn get_texts(bytes: &[u8], pos: usize) -> (r: Option<(Vec<String>, usize)>)
    requires
        pos <= bytes@.len(),
    ensures
        reads(
            bytes@,
            pos as int,
            dec_texts(bytes@.skip(pos as int)),
            match r {
                Some((v, next)) => Some((text_views(v@), next)),
                None => None,
            },
        ),
{
    let (n, start) = match get_u64(bytes, pos) {
        Some(x) => x,
        None => { return None; },
    };
    let ghost whole = dec_items(bytes@.skip(start as int), n as nat, text_decoder());
    let mut got: Vec<String> = Vec::new();
    let mut cur: usize = start;
    let mut i: u64 = 0;
    assert(text_views(got@) =~= Seq::<Seq<char>>::empty());
    while i < n
        invariant
            i <= n,
            pos <= cur <= bytes@.len(),
            whole == dec_texts(bytes@.skip(pos as int)),
            whole == match dec_items(bytes@.skip(cur as int), (n - i) as nat, text_decoder()) {
                Some((xs, rest)) => Some((text_views(got@) + xs, rest)),
                None => None,
            },
        decreases n - i,
    {
        let ghost before = text_views(got@);
        match get_str(bytes, cur) {
            Some((x, next)) => {
                proof {
                    let tail = dec_items(
                        bytes@.skip(next as int),
                        (n - i - 1) as nat,
                        text_decoder(),
                    );
                    if let Some((xs, rest)) = tail {
                        assert(before.push(x@) + xs =~= before + (seq![x@] + xs));
                    }
                    assert(text_views(got@.push(x)) =~= before.push(x@));
                }
                got.push(x);
                cur = next;
                i += 1;
            },
            None => {
                return None;
            },
        }
    }
    assert(text_views(got@) + Seq::<Seq<char>>::empty() =~= text_views(got@));
    Some((got, cur))
}

/// The greeting of a node: its protocol version, the height of its chain
/// and its address.
#[derive(Debug)]
pub struct Version {
    pub version: i32,
    pub best_height: i32,
    pub addr_from: String,
}

/// What a greeting holds.
pub struct VersionView {
    pub version: i32,
    pub best_height: i32,
    pub addr_from: Seq<char>,
}

/// A block on its way to a peer.
#[derive(Debug)]
pub struct BlockWrapper {
    pub addr_from: String,
    pub block: Vec<u8>,
}

/// A transaction on its way to a peer.
#[derive(Debug)]
pub struct TxWrapper {
    pub addr_from: String,
    pub tx: Vec<u8>,
}

/// What a wrapper holds: the sender's address and the encoded item.
pub struct WrapperView {
    pub addr_from: Seq<char>,
    pub item: Seq<u8>,
}

/// The list of what a node has of one kind.
#[derive(Debug)]
pub struct Inv {
    pub addr_from: String,
    pub kind: String,
    pub items: Vec<String>,
}

/// What an inventory holds.
pub struct InvView {
    pub addr_from: Seq<char>,
    pub kind: Seq<char>,
    pub items: Seq<Seq<char>>,
}

/// A request for one block or transaction.
#[derive(Debug)]
pub struct GetData {
    pub addr_from: String,
    pub kind: String,
    pub id: String,
}

/// What a request for data holds.
pub struct GetDataView {
    pub addr_from: Seq<char>,
    pub kind: Seq<char>,
    pub id: Seq<char>,
}

/// A greeting: version, height, address.
pub open spec fn enc_version(v: VersionView) -> Seq<u8> {
    enc_i32(v.version) + enc_i32(v.best_height) + enc_str(v.addr_from)
}

/// Takes a greeting from the front.
pub open spec fn dec_version(bytes: Seq<u8>) -> Decoded<VersionView> {
    match dec_i32(bytes) {
        Some((version, r1)) => match dec_i32(r1) {
            Some((best_height, r2)) => match dec_str(r2) {
                Some((addr_from, r3)) => Some((VersionView { version, best_height, addr_from }, r3)),
                None => None,
            },
            None => None,
        },
        None => None,
    }
}

/// A wrapper: address, item.
pub open spec fn enc_wrapper(w: WrapperView) -> Seq<u8> {
    enc_str(w.addr_from) + enc_bytes(w.item)
}

/// Takes a wrapper from the front.
pub open spec fn dec_wrapper(bytes: Seq<u8>) -> Decoded<WrapperView> {
    match dec_str(bytes) {
        Some((addr_from, r1)) => match dec_bytes(r1) {
            Some((item, r2)) => Some((WrapperView { addr_from, item }, r2)),
            None => None,
        },
        None => None,
    }
}

/// An inventory: address, kind, items.
pub open spec fn enc_inv(v: InvView) -> Seq<u8> {
    enc_str(v.addr_from) + enc_str(v.kind) + enc_texts(v.items)
}

/// Takes an inventory from the front.
pub open spec fn dec_inv(bytes: Seq<u8>) -> Decoded<InvView> {
    match dec_str(bytes) {
        Some((addr_from, r1)) => match dec_str(r1) {
            Some((kind, r2)) => match dec_texts(r2) {
                Some((items, r3)) => Some((InvView { addr_from, kind, items }, r3)),
                None => None,
            },
            None => None,
        },
        None => None,
    }
}

/// A request for data: address, kind, id.
pub open spec fn enc_get_data(v: GetDataView) -> Seq<u8> {
    enc_str(v.addr_from) + enc_str(v.kind) + enc_str(v.id)
}

/// Takes a request for data from the front.
pub open spec fn dec_get_data(bytes: Seq<u8>) -> Decoded<GetDataView> {
    match dec_str(bytes) {
        Some((addr_from, r1)) => match dec_str(r1) {
            Some((kind, r2)) => match dec_str(r2) {
                Some((id, r3)) => Some((GetDataView { addr_from, kind, id }, r3)),
                None => None,
            },
            None => None,
        },
        None => None,
    }
}

/// Decoding the encoding of a greeting gives it back.
pub proof fn lemma_version_round_trip(v: VersionView, rest: Seq<u8>)
    requires
        text_fits(v.addr_from),
    ensures
        dec_version(enc_version(v) + rest) == Some((v, rest)),
{
    let r2 = enc_str(v.addr_from) + rest;
    let r1 = enc_i32(v.best_height) + r2;
    assert(enc_version(v) + rest =~= enc_i32(v.version) + r1);
    lemma_i32_round_trip(v.version, r1);
    lemma_i32_round_trip(v.best_height, r2);
    lemma_str_round_trip(v.addr_from, rest);
}

/// Decoding the encoding of a wrapper gives it back.
pub proof fn lemma_wrapper_round_trip(w: WrapperView, rest: Seq<u8>)
    requires
        text_fits(w.addr_from),
        w.item.len() <= u64::MAX,
    ensures
        dec_wrapper(enc_wrapper(w) + rest) == Some((w, rest)),
{
    let r1 = enc_bytes(w.item) + rest;
    assert(enc_wrapper(w) + rest =~= enc_str(w.addr_from) + r1);
    lemma_str_round_trip(w.addr_from, r1);
    lemma_bytes_round_trip(w.item, rest);
}

/// Decoding the encoding of an inventory gives it back.
pub proof fn lemma_inv_round_trip(v: InvView, rest: Seq<u8>)
    requires
        text_fits(v.addr_from),
        text_fits(v.kind),
        texts_fit(v.items),
    ensures
        dec_inv(enc_inv(v) + rest) == Some((v, rest)),
{
    let r2 = enc_texts(v.items) + rest;
    let r1 = enc_str(v.kind) + r2;
    assert(enc_inv(v) + rest =~= enc_str(v.addr_from) + r1);
    lemma_str_round_trip(v.addr_from, r1);
    lemma_str_round_trip(v.kind, r2);
    lemma_texts_round_trip(v.items, rest);
}

/// Decoding the encoding of a request for data gives it back.
pub proof fn lemma_get_data_round_trip(v: GetDataView, rest: Seq<u8>)
    requires
        text_fits(v.addr_from),
        text_fits(v.kind),
        text_fits(v.id),
    ensures
        dec_get_data(enc_get_data(v) + rest) == Some((v, rest)),
{
    let r2 = enc_str(v.id) + rest;
    let r1 = enc_str(v.kind) + r2;
    assert(enc_get_data(v) + rest =~= enc_str(v.addr_from) + r1);
    lemma_str_round_trip(v.addr_from, r1);
    lemma_str_round_trip(v.kind, r2);
    lemma_str_round_trip(v.id, rest);
}

impl View for Version {
    type V = VersionView;

    open spec fn view(&self) -> VersionView {
        VersionView {
            version: self.version,
            best_height: self.best_height,
            addr_from: self.addr_from@,
        }
    }
}

impl View for BlockWrapper {
    type V = WrapperView;

    open spec fn view(&self) -> WrapperView {
        WrapperView { addr_from: self.addr_from@, item: self.block@ }
    }
}

impl View for TxWrapper {
    type V = WrapperView;

    open spec fn view(&self) -> WrapperView {
        WrapperView { addr_from: self.addr_from@, item: self.tx@ }
    }
}

impl View for Inv {
    type V = InvView;

    open spec fn view(&self) -> InvView {
        InvView { addr_from: self.addr_from@, kind: self.kind@, items: text_views(self.items@) }
    }
}

impl View for GetData {
    type V = GetDataView;

    open spec fn view(&self) -> GetDataView {
        GetDataView { addr_from: self.addr_from@, kind: self.kind@, id: self.id@ }
    }
}

impl Version {
    /// The encoding of the greeting. Decoding it gives the greeting back.
    pub fn serialize(&self) -> (out: Vec<u8>)
        ensures
            out@ == enc_version(self@),
            dec_version(out@) == Some((self@, Seq::<u8>::empty())),
    {
        let mut out: Vec<u8> = Vec::new();
        put_i32(&mut out, self.version);
        put_i32(&mut out, self.best_height);
        put_str(&mut out, self.addr_from.as_str());
        proof {
            assert(out@ =~= enc_version(self@));
            lemma_version_round_trip(self@, Seq::empty());
            assert(out@ + Seq::<u8>::empty() =~= out@);
        }
        out
    }

    /// Decodes a greeting from the start of `bytes`.
    pub fn deserialize(bytes: &[u8]) -> (r: Result<Version, Error>)
        ensures
            match r {
                Ok(v) => dec_version(bytes@) matches Some((x, _)) && x == v@,
                Err(e) => e == Error::Malformed && dec_version(bytes@) is None,
            },
    {
        assert(bytes@.skip(0) =~= bytes@);
        let (version, p1) = match get_i32(bytes, 0) {
            Some(x) => x,
            None => { return Err(Error::Malformed); },
        };
        let (best_height, p2) = match get_i32(bytes, p1) {
            Some(x) => x,
            None => { return Err(Error::Malformed); },
        };
        let (addr_from, _) = match get_str(bytes, p2) {
            Some(x) => x,
            None => { return Err(Error::Malformed); },
        };
        Ok(Version { version, best_height, addr_from })
    }
}

fn put_wrapper(addr_from: &str, item: &[u8]) -> (out: Vec<u8>)
    ensures
        out@ == enc_wrapper(WrapperView { addr_from: addr_from@, item: item@ }),
        dec_wrapper(out@) == Some(
            (WrapperView { addr_from: addr_from@, item: item@ }, Seq::<u8>::empty()),
        ),
{
    let mut out: Vec<u8> = Vec::new();
    put_str(&mut out, addr_from);
    put_bytes(&mut out, item);
    proof {
        let w = WrapperView { addr_from: addr_from@, item: item@ };
        assert(out@ =~= enc_wrapper(w));
        lemma_wrapper_round_trip(w, Seq::empty());
        assert(out@ + Seq::<u8>::empty() =~= out@);
    }
    out
}

fn get_wrapper(bytes: &[u8]) -> (r: Option<(String, Vec<u8>)>)
    ensures
        match r {
            Some((addr_from, item)) => dec_wrapper(bytes@) matches Some((x, _)) && x == (
            WrapperView { addr_from: addr_from@, item: item@ }),
            None => dec_wrapper(bytes@) is None,
        },
{
    assert(bytes@.skip(0) =~= bytes@);
    let (addr_from, p1) = match get_str(bytes, 0) {
        Some(x) => x,
        None => { return None; },
    };
    let (item, _) = match get_bytes(bytes, p1) {
        Some(x) => x,
        None => { return None; },
    };
    Some((addr_from, item))
}

impl BlockWrapper {
    /// The encoding of the wrapper. Decoding it gives the wrapper back.
    pub fn serialize(&self) -> (out: Vec<u8>)
        ensures
            out@ == enc_wrapper(self@),
            dec_wrapper(out@) == Some((self@, Seq::<u8>::empty())),
    {
        put_wrapper(self.addr_from.as_str(), self.block.as_slice())
    }

    /// Decodes a wrapper from the start of `bytes`.
    pub fn deserialize(bytes: &[u8]) -> (r: Result<BlockWrapper, Error>)
        ensures
            match r {
                Ok(v) => dec_wrapper(bytes@) matches Some((x, _)) && x == v@,
                Err(e) => e == Error::Malformed && dec_wrapper(bytes@) is None,
            },
    {
        match get_wrapper(bytes) {
            Some((addr_from, block)) => Ok(BlockWrapper { addr_from, block }),
            None => Err(Error::Malformed),
        }
    }
}

impl TxWrapper {
    /// The encoding of the wrapper. Decoding it gives the wrapper back.
    pub fn serialize(&self) -> (out: Vec<u8>)
        ensures
            out@ == enc_wrapper(self@),
            dec_wrapper(out@) == Some((self@, Seq::<u8>::empty())),
    {
        put_wrapper(self.addr_from.as_str(), self.tx.as_slice())
    }

    /// Decodes a wrapper from the start of `bytes`.
    pub fn deserialize(bytes: &[u8]) -> (r: Result<TxWrapper, Error>)
        ensures
            match r {
                Ok(v) => dec_wrapper(bytes@) matches Some((x, _)) && x == v@,
                Err(e) => e == Error::Malformed && dec_wrapper(bytes@) is None,
            },
    {
        match get_wrapper(bytes) {
            Some((addr_from, tx)) => Ok(TxWrapper { addr_from, tx }),
            None => Err(Error::Malformed),
        }
    }
}

impl Inv {
    /// The encoding of the inventory. Decoding it gives the inventory
    /// back.
    pub fn serialize(&self) -> (out: Vec<u8>)
        ensures
            out@ == enc_inv(self@),
            dec_inv(out@) == Some((self@, Seq::<u8>::empty())),
    {
        let mut out: Vec<u8> = Vec::new();
        put_str(&mut out, self.addr_from.as_str());
        put_str(&mut out, self.kind.as_str());
        put_texts(&mut out, self.items.as_slice());
        proof {
            assert(out@ =~= enc_inv(self@));
            lemma_inv_round_trip(self@, Seq::empty());
            assert(out@ + Seq::<u8>::empty() =~= out@);
        }
        out
    }

    /// Decodes an inventory from the start of `bytes`.
    pub fn deserialize(bytes: &[u8]) -> (r: Result<Inv, Error>)
        ensures
            match r {
                Ok(v) => dec_inv(bytes@) matches Some((x, _)) && x == v@,
                Err(e) => e == Error::Malformed && dec_inv(bytes@) is None,
            },
    {
        assert(bytes@.skip(0) =~= bytes@);
        let (addr_from, p1) = match get_str(bytes, 0) {
            Some(x) => x,
            None => { return Err(Error::Malformed); },
        };
        let (kind, p2) = match get_str(bytes, p1) {
            Some(x) => x,
            None => { return Err(Error::Malformed); },
        };
        let (items, _) = match get_texts(bytes, p2) {
            Some(x) => x,
            None => { return Err(Error::Malformed); },
        };
        Ok(Inv { addr_from, kind, items })
    }
}

impl GetData {
    /// The encoding of the request. Decoding it gives the request back.
    pub fn serialize(&self) -> (out: Vec<u8>)
        ensures
            out@ == enc_get_data(self@),
            dec_get_data(out@) == Some((self@, Seq::<u8>::empty())),
    {
        let mut out: Vec<u8> = Vec::new();
        put_str(&mut out, self.addr_from.as_str());
        put_str(&mut out, self.kind.as_str());
        put_str(&mut out, self.id.as_str());
        proof {
            assert(out@ =~= enc_get_data(self@));
            lemma_get_data_round_trip(self@, Seq::empty());
            assert(out@ + Seq::<u8>::empty() =~= out@);
        }
        out
    }

    /// Decodes a request from the start of `bytes`.
    pub fn deserialize(bytes: &[u8]) -> (r: Result<GetData, Error>)
        ensures
            match r {
                Ok(v) => dec_get_data(bytes@) matches Some((x, _)) && x == v@,
                Err(e) => e == Error::Malformed && dec_get_data(bytes@) is None,
            },
    {
        assert(bytes@.skip(0) =~= bytes@);
        let (addr_from, p1) = match get_str(bytes, 0) {
            Some(x) => x,
            None => { return Err(Error::Malformed); },
        };
        let (kind, p2) = match get_str(bytes, p1) {
            Some(x) => x,
            None => { return Err(Error::Malformed); },
        };
        let (id, _) = match get_str(bytes, p2) {
            Some(x) => x,
            None => { return Err(Error::Malformed); },
        };
        Ok(GetData { addr_from, kind, id })
    }
}

} // verus!
