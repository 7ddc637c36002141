//! Fetching blocks and execution witnesses from an RPC endpoint: the
//! builder of the endpoint's settings, and the plan of requests that collects
//! the last blocks of the chain, one response at a time.

use vstd::prelude::*;

use crate::format::{
    decimal, decimal_value, hex_lower, is_decimal_digit, lemma_decimal_reads_back, push_decimal,
    push_hex,
};
use crate::headers::{
    all_headers_valid, clone_header_map, distinct_names, first_header_error, header_map_from_pairs,
    header_map_of, header_values, pairs_view, HeaderValues, HeaderError, MAX_HEADERS,
};

verus! {

/// A block hash, as its 32 bytes.
pub type BlockHash = [u8; 32];

/// The block the walk back along the chain starts from.
#[derive(Debug, Clone, Copy, PartialEq, Eq, Structural)]
pub enum BlockTag {
    /// The chain's latest block.
    Latest,
    /// The block of this number.
    Number(u64),
}

/// Builder for the settings of the RPC endpoint that blocks and witnesses are fetched from.
#[derive(Debug)]
pub struct RPCBlocksAndWitnessesBuilder {
    url: String,
    header_map: http::HeaderMap,
    last_n_blocks: Option<usize>,
    block: Option<u64>,
}

/// What a builder holds.
pub struct BuilderView {
    pub url: Seq<char>,
    pub headers: HeaderValues,
    pub last_n_blocks: Option<usize>,
    pub block: Option<u64>,
}

impl View for RPCBlocksAndWitnessesBuilder {
    type V = BuilderView;

    closed spec fn view(&self) -> BuilderView {
        BuilderView {
            url: self.url@,
            headers: header_values(self.header_map),
            last_n_blocks: self.last_n_blocks,
            block: self.block,
        }
    }
}

/// The settings of an RPC endpoint, and how many blocks to collect from where.
#[derive(Debug)]
pub struct RPCBlocksAndWitnesses {
    url: String,
    header_map: http::HeaderMap,
    head: BlockTag,
    last_n_blocks: usize,
    max_response_size: u32,
}

/// The largest response, in bytes, that the client accepts: 1 GiB.
pub const MAX_RESPONSE_SIZE: u32 = 1073741824;

/// What the settings hold.
pub struct RpcView {
    pub url: Seq<char>,
    pub headers: HeaderValues,
    pub head: BlockTag,
    pub last_n_blocks: nat,
    pub max_response_size: nat,
}

impl View for RPCBlocksAndWitnesses {
    type V = RpcView;

    closed spec fn view(&self) -> RpcView {
        RpcView {
            url: self.url@,
            headers: header_values(self.header_map),
            head: self.head,
            last_n_blocks: self.last_n_blocks as nat,
            max_response_size: self.max_response_size as nat,
        }
    }
}

/// `v` with its headers replaced by those of the valid pairs `hs`.
pub open spec fn replace_headers(v: BuilderView, hs: Seq<(Seq<char>, Seq<char>)>) -> BuilderView {
    BuilderView { headers: header_map_of(hs), ..v }
}

/// Setting headers replaces the earlier ones rather than adding to them:
/// setting `h1` and then `h2` gives the builder that setting `h2` alone gives,
/// and setting no headers leaves none.
pub proof fn lemma_headers_replaced(
    v: BuilderView,
    h1: Seq<(Seq<char>, Seq<char>)>,
    h2: Seq<(Seq<char>, Seq<char>)>,
)
    ensures
        replace_headers(replace_headers(v, h1), h2) == replace_headers(v, h2),
        replace_headers(v, Seq::empty()).headers == HeaderValues::empty(),
{
}

impl Clone for RPCBlocksAndWitnessesBuilder {
    fn clone(&self) -> (c: Self)
        ensures
            c@ == self@,
    {
        RPCBlocksAndWitnessesBuilder {
            url: self.url.clone(),
            header_map: clone_header_map(&self.header_map),
            last_n_blocks: self.last_n_blocks,
            block: self.block,
        }
    }
}

impl Clone for RPCBlocksAndWitnesses {
    fn clone(&self) -> (c: Self)
        ensures
            c@ == self@,
    {
        RPCBlocksAndWitnesses {
            url: self.url.clone(),
            header_map: clone_header_map(&self.header_map),
            head: self.head,
            last_n_blocks: self.last_n_blocks,
            max_response_size: self.max_response_size,
        }
    }
}

impl Default for RPCBlocksAndWitnessesBuilder {
    /// A builder with an empty URL, no headers and no count of blocks set.
    fn default() -> (b: Self)
        ensures
            b@.url == Seq::<char>::empty(),
            b@.headers == HeaderValues::empty(),
            b@.last_n_blocks is None,
            b@.block is None,
    {
        RPCBlocksAndWitnessesBuilder::new(String::new())
    }
}

impl RPCBlocksAndWitnessesBuilder {
    /// A builder for the endpoint at `url`, with no headers and no count of blocks set.
    pub fn new(url: String) -> (b: Self)
        ensures
            b@.url == url@,
            b@.headers == HeaderValues::empty(),
            b@.last_n_blocks is None,
            b@.block is None,
    {
        RPCBlocksAndWitnessesBuilder {
            url,
            header_map: crate::headers::empty_header_map(),
            last_n_blocks: None,
            block: None,
        }
    }

    /// Replaces the headers with `headers`, each name and value parsed by
    /// `http`; fails on the first pair that `http` refuses.
    pub fn with_headers(self, headers: Vec<(String, String)>) -> (res: Result<Self, HeaderError>)
        requires
            distinct_names(pairs_view(headers@)) <= MAX_HEADERS,
        ensures
            match res {
                Ok(b) => {
                    &&& all_headers_valid(pairs_view(headers@))
                    &&& b@ == replace_headers(self@, pairs_view(headers@))
                    &&& b@.headers == header_map_of(pairs_view(headers@))
                    &&& b@.url == self@.url
                    &&& b@.last_n_blocks == self@.last_n_blocks
                    &&& b@.block == self@.block
                },
                Err(e) => first_header_error(pairs_view(headers@), e),
            },
    {
        match header_map_from_pairs(&headers) {
            Ok(header_map) => Ok(RPCBlocksAndWitnessesBuilder { header_map, ..self }),
            Err(e) => Err(e),
        }
    }

    /// Sets the number of last blocks to fetch.
    pub fn last_n_blocks(self, n: usize) -> (b: Self)
        ensures
            b@ == (BuilderView { last_n_blocks: Some(n), ..self@ }),
    {
        RPCBlocksAndWitnessesBuilder { last_n_blocks: Some(n), ..self }
    }

    /// Fetches only the block of number `block_num`; this takes precedence over
    /// `last_n_blocks`.
    pub fn specific_block(self, block_num: u64) -> (b: Self)
        ensures
            b@ == (BuilderView { block: Some(block_num), ..self@ }),
    {
        RPCBlocksAndWitnessesBuilder { block: Some(block_num), ..self }
    }

    /// The settings: one block of the given number if one was set, else the
    /// last `last_n_blocks` blocks (one if no count was set).
    pub fn build(self) -> (r: RPCBlocksAndWitnesses)
        ensures
            r@.url == self@.url,
            r@.headers == self@.headers,
            r@.head == (match self@.block {
                Some(b) => BlockTag::Number(b),
                None => BlockTag::Latest,
            }),
            r@.last_n_blocks == (match (self@.block, self@.last_n_blocks) {
                (Some(_), _) => 1,
                (None, Some(n)) => n as nat,
                (None, None) => 1,
            }),
            r@.max_response_size == MAX_RESPONSE_SIZE,
            r@.max_response_size == 1024 * 1024 * 1024,
    {
        match self.block {
            Some(b) => RPCBlocksAndWitnesses {
                url: self.url,
                header_map: self.header_map,
                head: BlockTag::Number(b),
                last_n_blocks: 1,
                max_response_size: MAX_RESPONSE_SIZE,
            },
            None => RPCBlocksAndWitnesses {
                url: self.url,
                header_map: self.header_map,
                head: BlockTag::Latest,
                last_n_blocks: match self.last_n_blocks {
                    Some(n) => n,
                    None => 1,
                },
                max_response_size: MAX_RESPONSE_SIZE,
            },
        }
    }
}

impl RPCBlocksAndWitnesses {
    /// The endpoint's URL.
    pub fn url(&self) -> (u: &str)
        ensures
            u@ == self@.url,
    {
        self.url.as_str()
    }

    /// The headers to send with every request.
    pub fn header_map(&self) -> (m: &http::HeaderMap)
        ensures
            header_values(*m) == self@.headers,
    {
        &self.header_map
    }

    /// The block the walk starts from.
    pub fn head(&self) -> (t: BlockTag)
        ensures
            t == self@.head,
    {
        self.head
    }

    /// How many blocks to collect.
    pub fn last_n_blocks(&self) -> (n: usize)
        ensures
            n == self@.last_n_blocks,
    {
        self.last_n_blocks
    }

    /// The largest response, in bytes, that the client accepts.
    pub fn max_response_size(&self) -> (n: u32)
        ensures
            n == self@.max_response_size,
    {
        self.max_response_size
    }
}

/// A request for the RPC endpoint.
#[derive(Debug, Clone, PartialEq, Eq)]
pub enum Request {
    /// `eth_getBlockByNumber(tag, false)`: the block the walk starts from.
    HeadBlock(BlockTag),
    /// `eth_getBlockByHash(hash, true)`: the block of that hash, whose parent
    /// hash is the hash of block `number`.
    ParentOf { number: u64, hash: BlockHash },
    /// `debug_executionWitness(number)`, then `eth_getBlockByHash(hash, true)`:
    /// the witness and the block to collect under `name`.
    WitnessAndBlock { number: u64, hash: BlockHash, name: String },
}

/// What the endpoint answered to the last request, as far as the plan reads it.
#[derive(Debug, Clone, Copy, PartialEq, Eq)]
pub enum Response {
    /// The head block's number and hash, if the endpoint has the block.
    Head(Option<(u64, BlockHash)>),
    /// The parent hash of the requested block, if the endpoint has the block.
    Parent(Option<BlockHash>),
    /// Whether the endpoint had the block to collect.
    Block(bool),
}

/// What to do next.
#[derive(Debug, Clone, PartialEq, Eq)]
pub enum Step {
    /// Send this request and hand back the response.
    Fetch(Request),
    /// Every block was collected.
    Done,
    /// The endpoint lacked a block: stop with this message.
    Failed(String),
}

/// Where a collection stands.
#[derive(Debug, Clone, Copy, PartialEq, Eq, Structural)]
pub enum Phase {
    /// Waiting for the head block.
    AwaitHead(BlockTag),
    /// Walking back along parent hashes.
    Walking,
    /// Fetching the witness and block of each walked block.
    Collecting,
    /// Nothing more to request.
    Finished,
}

/// The plan that collects the last blocks of the chain and their witnesses.
pub struct BlockCollection {
    count: usize,
    hashes: Vec<(u64, BlockHash)>,
    collected: usize,
    phase: Phase,
}

/// What a collection holds: how many blocks it collects, the (number, hash)
/// pairs walked so far from the head back, how many of them were collected,
/// and its phase.
#[verifier::ext_equal]
pub struct CollectionView {
    pub count: nat,
    pub hashes: Seq<(u64, BlockHash)>,
    pub collected: nat,
    pub phase: Phase,
}

impl View for BlockCollection {
    type V = CollectionView;

    closed spec fn view(&self) -> CollectionView {
        CollectionView {
            count: self.count as nat,
            hashes: self.hashes@,
            collected: self.collected as nat,
            phase: self.phase,
        }
    }
}

/// The numbers of `hashes` count down by one from the first.
pub open spec fn counts_down(hashes: Seq<(u64, BlockHash)>) -> bool {
    forall|i: int| 0 <= i < hashes.len() ==> #[trigger] hashes[i].0 == hashes[0].0 - i
}

/// The state of a collection is consistent.
pub open spec fn collection_wf(v: CollectionView) -> bool {
    match v.phase {
        Phase::AwaitHead(_) => v.count >= 1 && v.hashes.len() == 0 && v.collected == 0,
        Phase::Walking => {
            &&& 1 <= v.hashes.len() < v.count
            &&& v.hashes[0].0 >= v.count - 1
            &&& counts_down(v.hashes)
            &&& v.collected == 0
        },
        Phase::Collecting => {
            &&& v.hashes.len() == v.count
            &&& v.count >= 1
            &&& v.hashes[0].0 >= v.count - 1
            &&& counts_down(v.hashes)
            &&& v.collected < v.count
        },
        Phase::Finished => true,
    }
}

/// `r` answers the request pending in `v`. A head block numbered below
/// `count - 1` is refused: the walk back would pass block 0.
pub open spec fn accepts(v: CollectionView, r: Response) -> bool {
    match (v.phase, r) {
        (Phase::AwaitHead(_), Response::Head(h)) => h matches Some(b) ==> b.0 >= v.count - 1,
        (Phase::Walking, Response::Parent(_)) => true,
        (Phase::Collecting, Response::Block(_)) => true,
        _ => false,
    }
}

/// The name a collected block is stored under.
pub open spec fn entry_name(number: u64) -> Seq<char> {
    "mainnet_block_"@ + decimal(number as nat)
}

/// The message when the head block is missing.
pub open spec fn missing_head_message() -> Seq<char> {
    "No block found"@
}

/// The message when the block whose parent is to be block `number` is missing.
pub open spec fn missing_number_message(number: u64) -> Seq<char> {
    "No block found for number "@ + decimal(number as nat)
}

/// The message when the block of `hash` is missing.
pub open spec fn missing_hash_message(hash: BlockHash) -> Seq<char> {
    "No block found for hash "@ + seq!['0', 'x'] + hex_lower(hash@)
}

/// A step as the plan's model sees it: the request, or the end.
#[verifier::ext_equal]
pub enum StepView {
    FetchHead(BlockTag),
    FetchParent(u64, BlockHash),
    FetchEntry(u64, BlockHash, Seq<char>),
    Done,
    Failed(Seq<char>),
}

/// The model of a step.
pub open spec fn step_view(s: Step) -> StepView {
    match s {
        Step::Fetch(Request::HeadBlock(t)) => StepView::FetchHead(t),
        Step::Fetch(Request::ParentOf { number, hash }) => StepView::FetchParent(number, hash),
        Step::Fetch(Request::WitnessAndBlock { number, hash, name }) => StepView::FetchEntry(
            number,
            hash,
            name@,
        ),
        Step::Done => StepView::Done,
        Step::Failed(m) => StepView::Failed(m@),
    }
}

/// The request that collects the witness and block of `entry` under its name.
pub open spec fn entry_step(entry: (u64, BlockHash)) -> StepView {
    StepView::FetchEntry(entry.0, entry.1, entry_name(entry.0))
}

/// The state and step after the response `r` to the request pending in `v`:
/// the head block starts the walk back (or, for one block, the collection);
/// each parent hash is the hash of the block one below; once `count` blocks
/// are walked they are collected from the head down; a missing block stops
/// the plan with its message.
pub open spec fn transition(v: CollectionView, r: Response) -> (CollectionView, StepView) {
    match (v.phase, r) {
        (Phase::AwaitHead(_), Response::Head(None)) => (
            CollectionView { phase: Phase::Finished, ..v },
            StepView::Failed(missing_head_message()),
        ),
        (Phase::AwaitHead(_), Response::Head(Some(b))) => if v.count == 1 {
            (CollectionView { hashes: seq![b], phase: Phase::Collecting, ..v }, entry_step(b))
        } else {
            (
                CollectionView { hashes: seq![b], phase: Phase::Walking, ..v },
                StepView::FetchParent((b.0 - 1) as u64, b.1),
            )
        },
        (Phase::Walking, Response::Parent(None)) => (
            CollectionView { phase: Phase::Finished, ..v },
            StepView::Failed(missing_number_message((v.hashes.last().0 - 1) as u64)),
        ),
        (Phase::Walking, Response::Parent(Some(p))) => {
            let e = ((v.hashes.last().0 - 1) as u64, p);
            let hashes = v.hashes.push(e);
            if hashes.len() == v.count {
                (CollectionView { hashes, phase: Phase::Collecting, ..v }, entry_step(hashes[0]))
            } else {
                (CollectionView { hashes, ..v }, StepView::FetchParent((e.0 - 1) as u64, p))
            }
        },
        (Phase::Collecting, Response::Block(false)) => (
            CollectionView { phase: Phase::Finished, ..v },
            StepView::Failed(missing_hash_message(v.hashes[v.collected as int].1)),
        ),
        (Phase::Collecting, Response::Block(true)) => {
            let collected = v.collected + 1;
            if collected == v.count {
                (CollectionView { collected, phase: Phase::Finished, ..v }, StepView::Done)
            } else {
                (CollectionView { collected, ..v }, entry_step(v.hashes[collected as int]))
            }
        },
        _ => (v, StepView::Done),
    }
}

/// The name of block `number` is `mainnet_block_` followed by the decimal
/// digits of the block's own number, without leading zeros: what follows the
/// prefix reads back as `number`.
pub proof fn lemma_entry_name_reads_back(number: u64)
    ensures
        entry_name(number).len() > "mainnet_block_"@.len(),
        entry_name(number).take("mainnet_block_"@.len() as int) == "mainnet_block_"@,
        forall|i: int|
            "mainnet_block_"@.len() <= i < entry_name(number).len() ==> is_decimal_digit(
                #[trigger] entry_name(number)[i],
            ),
        decimal_value(entry_name(number).skip("mainnet_block_"@.len() as int)) == number,
        number > 0 ==> entry_name(number)["mainnet_block_"@.len() as int] != '0',
{
    let p = "mainnet_block_"@;
    let e = entry_name(number);
    lemma_decimal_reads_back(number as nat);
    assert(e.take(p.len() as int) =~= p);
    assert(e.skip(p.len() as int) =~= decimal(number as nat));
    assert forall|i: int| p.len() <= i < e.len() implies is_decimal_digit(#[trigger] e[i]) by {
        assert(e[i] == decimal(number as nat)[i - p.len()]);
    }
}

/// Different blocks are stored under different names.
pub proof fn lemma_entry_names_differ(n: u64, m: u64)
    requires
        n != m,
    ensures
        entry_name(n) != entry_name(m),
{
    let p = "mainnet_block_"@;
    lemma_entry_name_reads_back(n);
    lemma_entry_name_reads_back(m);
    if entry_name(n) == entry_name(m) {
        assert(entry_name(n).skip(p.len() as int) == entry_name(m).skip(p.len() as int));
    }
}

/// A head block is accepted exactly when the walk back from it to the
/// oldest of the last `n` blocks stays at or above block 0, so with one
/// block asked for every head is accepted; an answer that the endpoint has
/// no head block is accepted too (and ends the plan).
pub proof fn lemma_head_accepted(n: nat, tag: BlockTag, head: (u64, BlockHash))
    requires
        n >= 1,
    ensures
        collection_wf(initial(n, tag)),
        accepts(initial(n, tag), Response::Head(Some(head))) <==> head.0 + 1 >= n,
        accepts(initial(n, tag), Response::Head(None)),
{
}

/// Every answer of the kind that the pending request asks for is accepted,
/// found or not, and a missing block ends the plan with its message: `No block found` for the
/// head, `No block found for number` and the number of the missing parent,
/// `No block found for hash 0x` and the hash of the block that could not be
/// collected.
pub proof fn lemma_missing_block_fails(v: CollectionView)
    requires
        collection_wf(v),
    ensures
        v.phase is AwaitHead ==> accepts(v, Response::Head(None)),
        v.phase is Walking ==> forall|p: Option<BlockHash>| #[trigger] accepts(v, Response::Parent(p)),
        v.phase is Collecting ==> forall|found: bool| #[trigger] accepts(v, Response::Block(found)),
        v.phase is AwaitHead ==> transition(v, Response::Head(None)) == (
        CollectionView { phase: Phase::Finished, ..v },
        StepView::Failed("No block found"@),
        ),
        v.phase is Walking ==> transition(v, Response::Parent(None)) == (
        CollectionView { phase: Phase::Finished, ..v },
        StepView::Failed("No block found for number "@ + decimal((v.hashes.last().0 - 1) as nat)),
        ),
        v.phase is Collecting ==> transition(v, Response::Block(false)) == (
        CollectionView { phase: Phase::Finished, ..v },
        StepView::Failed(
            "No block found for hash "@ + seq!['0', 'x'] + hex_lower(v.hashes[v.collected as int].1@),
        ),
        ),
{
    if v.phase is Walking {
        assert(v.hashes.last().0 >= 1) by {
            assert(v.hashes.last() == v.hashes[v.hashes.len() - 1]);
        }
    }
}

/// The name a collected block of number `number` is stored under.
pub fn block_entry_name(number: u64) -> (s: String)
    ensures
        s@ == entry_name(number),
        s@.take("mainnet_block_"@.len() as int) == "mainnet_block_"@,
        decimal_value(s@.skip("mainnet_block_"@.len() as int)) == number,
{
    let mut s = String::new();
    s.append("mainnet_block_");
    push_decimal(&mut s, number);
    proof {
        lemma_entry_name_reads_back(number);
    }
    s
}

fn entry_request(entry: (u64, BlockHash)) -> (s: Step)
    ensures
        step_view(s) == entry_step(entry),
{
    Step::Fetch(Request::WitnessAndBlock { number: entry.0, hash: entry.1, name: block_entry_name(entry.0) })
}

impl BlockCollection {
    /// The plan for `settings`: nothing to fetch if no block is asked for,
    /// else the head block first.
    pub fn start(settings: &RPCBlocksAndWitnesses) -> (res: (BlockCollection, Step))
        ensures
            collection_wf(res.0@),
            res.0@.count == settings@.last_n_blocks,
            settings@.last_n_blocks == 0 ==> res.0@.phase == Phase::Finished && res.1 is Done,
            settings@.last_n_blocks != 0 ==> res.0@ == initial(settings@.last_n_blocks, settings@.head)
                && step_view(res.1) == StepView::FetchHead(settings@.head),
    {
        let count = settings.last_n_blocks;
        if count == 0 {
            (BlockCollection { count, hashes: Vec::new(), collected: 0, phase: Phase::Finished }, Step::Done)
        } else {
            let head = settings.head;
            (
                BlockCollection { count, hashes: Vec::new(), collected: 0, phase: Phase::AwaitHead(head) },
                Step::Fetch(Request::HeadBlock(head)),
            )
        }
    }

    /// Decides `accepts`.
    pub fn can_accept(&self, r: &Response) -> (b: bool)
        requires
            collection_wf(self@),
        ensures
            b == accepts(self@, *r),
            self@.phase is AwaitHead ==> (r matches Response::Head(Some(h)) ==> (b <==> h.0 + 1
                >= self@.count)),
            self@.phase is AwaitHead ==> (*r == Response::Head(None) ==> b),
    {
        match (self.phase, r) {
            (Phase::AwaitHead(_), Response::Head(h)) => match h {
                Some(b) => b.0 as u64 >= (self.count as u64) - 1,
                None => true,
            },
            (Phase::Walking, Response::Parent(_)) => true,
            (Phase::Collecting, Response::Block(_)) => true,
            _ => false,
        }
    }

    /// Takes the endpoint's response to the pending request and says what to do next.
    pub fn respond(&mut self, r: Response) -> (s: Step)
        requires
            collection_wf(old(self)@),
            accepts(old(self)@, r),
        ensures
            collection_wf(final(self)@),
            final(self)@.count == old(self)@.count,
            (final(self)@, step_view(s)) == transition(old(self)@, r),
    {
        match r {
            Response::Head(None) => {
                self.phase = Phase::Finished;
                let mut msg = String::new();
                msg.append("No block found");
                Step::Failed(msg)
            },
            Response::Head(Some(b)) => {
                self.hashes.push(b);
                if self.count == 1 {
                    self.phase = Phase::Collecting;
                    entry_request(b)
                } else {
                    self.phase = Phase::Walking;
                    Step::Fetch(Request::ParentOf { number: b.0 - 1, hash: b.1 })
                }
            },
            Response::Parent(None) => {
                let number = self.hashes[self.hashes.len() - 1].0 - 1;
                self.phase = Phase::Finished;
                let mut msg = String::new();
                msg.append("No block found for number ");
                push_decimal(&mut msg, number);
                Step::Failed(msg)
            },
            Response::Parent(Some(p)) => {
                let number = self.hashes[self.hashes.len() - 1].0 - 1;
                self.hashes.push((number, p));
                if self.hashes.len() == self.count {
                    self.phase = Phase::Collecting;
                    entry_request(self.hashes[0])
                } else {
                    Step::Fetch(Request::ParentOf { number: number - 1, hash: p })
                }
            },
            Response::Block(false) => {
                let hash = self.hashes[self.collected].1;
                self.phase = Phase::Finished;
                let mut msg = String::new();
                msg.append("No block found for hash ");
                push_hex(&mut msg, &hash);
                Step::Failed(msg)
            },
            Response::Block(true) => {
                self.collected = self.collected + 1;
                if self.collected == self.count {
                    self.phase = Phase::Finished;
                    Step::Done
                } else {
                    entry_request(self.hashes[self.collected])
                }
            },
        }
    }
}

/// The last state and the steps of the plan from `v` on the responses `rs`, in order.
pub open spec fn run(v: CollectionView, rs: Seq<Response>) -> (CollectionView, Seq<StepView>)
    decreases rs.len(),
{
    if rs.len() == 0 {
        (v, Seq::empty())
    } else {
        let first = transition(v, rs[0]);
        let rest = run(first.0, rs.drop_first());
        (rest.0, seq![first.1] + rest.1)
    }
}

/// Each response of `rs`, in turn, answers the request pending in the state
/// that the responses before it led to from `v`.
pub open spec fn accepts_all(v: CollectionView, rs: Seq<Response>) -> bool
    decreases rs.len(),
{
    rs.len() == 0 || (accepts(v, rs[0]) && accepts_all(transition(v, rs[0]).0, rs.drop_first()))
}

/// `m` answers that the block to collect was found.
pub open spec fn blocks_found(m: nat) -> Seq<Response> {
    Seq::new(m, |i: int| Response::Block(true))
}

/// The answers of an endpoint that has every block: the head, the parent
/// hash of each block walked, then every block to collect.
pub open spec fn all_found(head: (u64, BlockHash), parents: Seq<BlockHash>) -> Seq<Response> {
    seq![Response::Head(Some(head))] + parents.map_values(|p: BlockHash| Response::Parent(Some(p)))
        + blocks_found(parents.len() + 1)
}

/// The hashes of the walked blocks, from the head down.
pub open spec fn chain(head: (u64, BlockHash), parents: Seq<BlockHash>) -> Seq<BlockHash> {
    seq![head.1] + parents
}

/// The collection of the last `count` blocks, before any response.
pub open spec fn initial(count: nat, tag: BlockTag) -> CollectionView {
    CollectionView { count, hashes: Seq::empty(), collected: 0, phase: Phase::AwaitHead(tag) }
}

proof fn lemma_collect(v: CollectionView)
    requires
        collection_wf(v),
        v.phase == Phase::Collecting,
    ensures
        ({
            let r = run(v, blocks_found((v.count - v.collected) as nat));
            let m = v.count - v.collected;
            &&& r.0.phase == Phase::Finished
            &&& r.0.collected == v.count
            &&& r.0.hashes == v.hashes
            &&& r.1.len() == m
            &&& forall|j: int| 0 <= j < m - 1 ==> #[trigger] r.1[j] == entry_step(v.hashes[v.collected + 1 + j])
            &&& r.1[m - 1] == StepView::Done
            &&& accepts_all(v, blocks_found(m as nat))
        }),
    decreases v.count - v.collected,
{
    let m = (v.count - v.collected) as nat;
    let rs = blocks_found(m);
    let first = transition(v, rs[0]);
    let rest = run(first.0, rs.drop_first());
    if v.collected + 1 < v.count {
        assert(rs.drop_first() =~= blocks_found((m - 1) as nat));
        lemma_collect(first.0);
        assert(forall|j: int| 0 <= j < m - 1 ==> #[trigger] (seq![first.1] + rest.1)[j]
            == entry_step(v.hashes[v.collected + 1 + j]));
    } else {
        assert(rs.drop_first().len() == 0);
        assert(accepts_all(first.0, rs.drop_first()));
    }
    assert(rs[0] == Response::Block(true));
    assert(accepts(v, rs[0]));
}

proof fn lemma_walk(v: CollectionView, ps: Seq<BlockHash>, h: Seq<(u64, BlockHash)>)
    requires
        collection_wf(v),
        v.phase == Phase::Walking,
        ps.len() == v.count - v.hashes.len(),
        h.len() == v.count,
        h.take(v.hashes.len() as int) == v.hashes,
        forall|i: int| v.hashes.len() <= i < v.count ==> #[trigger] h[i] == ((h[0].0 - i) as u64, ps[i - v.hashes.len()]),
    ensures
        ({
            let k = v.hashes.len();
            let n = v.count;
            let r = run(v, ps.map_values(|p: BlockHash| Response::Parent(Some(p))) + blocks_found(n));
            &&& r.0.phase == Phase::Finished
            &&& r.0.collected == n
            &&& r.0.hashes == h
            &&& r.1.len() == n - k + n
            &&& forall|i: int| 0 <= i < n - k - 1 ==> #[trigger] r.1[i] == StepView::FetchParent(
                (h[k + i].0 - 1) as u64,
                h[k + i].1,
            )
            &&& forall|j: int| 0 <= j < n ==> #[trigger] r.1[n - k - 1 + j] == entry_step(h[j])
            &&& r.1[n - k + n - 1] == StepView::Done
            &&& accepts_all(
                v,
                ps.map_values(|p: BlockHash| Response::Parent(Some(p))) + blocks_found(n),
            )
        }),
    decreases v.count - v.hashes.len(),
{
    let k = v.hashes.len();
    let n = v.count;
    let f = |p: BlockHash| Response::Parent(Some(p));
    let rs = ps.map_values(f) + blocks_found(n);
    let first = transition(v, rs[0]);
    let rest = run(first.0, rs.drop_first());
    assert(h[0] == v.hashes[0]);
    assert(first.0.hashes =~= h.take(k + 1int)) by {
        assert(forall|i: int| 0 <= i < k + 1 ==> first.0.hashes[i] == h.take(k + 1int)[i]);
    }
    let steps = seq![first.1] + rest.1;
    if k + 1 == n {
        assert(rs.drop_first() =~= blocks_found(n));
        lemma_collect(first.0);
        assert(forall|j: int| 0 <= j < n ==> #[trigger] steps[n - k - 1 + j] == entry_step(h[j]));
    } else {
        assert(rs.drop_first() =~= ps.drop_first().map_values(f) + blocks_found(n));
        lemma_walk(first.0, ps.drop_first(), h);
        assert(forall|i: int| 0 <= i < n - k - 1 ==> #[trigger] steps[i] == StepView::FetchParent(
            (h[k + i].0 - 1) as u64,
            h[k + i].1,
        ));
        assert forall|j: int| 0 <= j < n implies #[trigger] steps[n - k - 1 + j] == entry_step(h[j]) by {
            assert(steps[n - k - 1 + j] == rest.1[n - (k + 1) - 1 + j]);
        }
    }
}

/// When the endpoint has every block, the plan for the last `n` blocks, with
/// a head block numbered at least `n - 1`, first walks back `n - 1` parent
/// hashes, then collects the blocks numbered head, head - 1, ..., head - n + 1
/// in that order, each under its name, and ends done after `2 * n` steps.
pub proof fn lemma_collects_last_n_blocks(tag: BlockTag, head: (u64, BlockHash), parents: Seq<BlockHash>)
    requires
        head.0 >= parents.len(),
    ensures
        ({
            let n = parents.len() + 1;
            let c = chain(head, parents);
            let r = run(initial(n, tag), all_found(head, parents));
            &&& r.0.phase == Phase::Finished
            &&& r.0.collected == n
            &&& r.1.len() == 2 * n
            &&& forall|i: int| 0 <= i < n - 1 ==> #[trigger] r.1[i] == StepView::FetchParent(
                (head.0 - 1 - i) as u64,
                c[i],
            )
            &&& forall|j: int| 0 <= j < n ==> #[trigger] r.1[n - 1 + j] == entry_step(
                ((head.0 - j) as u64, c[j]),
            )
            &&& r.1[2 * n - 1] == StepView::Done
            &&& accepts_all(initial(n, tag), all_found(head, parents))
        }),
{
    let n = parents.len() + 1;
    let c = chain(head, parents);
    let v = initial(n, tag);
    let rs = all_found(head, parents);
    let f = |p: BlockHash| Response::Parent(Some(p));
    let first = transition(v, rs[0]);
    let rest = run(first.0, rs.drop_first());
    let steps = seq![first.1] + rest.1;
    let h = Seq::new(n, |i: int| ((head.0 - i) as u64, c[i]));
    if n == 1 {
        assert(rs.drop_first() =~= blocks_found(1));
        lemma_collect(first.0);
    } else {
        assert(rs.drop_first() =~= parents.map_values(f) + blocks_found(n));
        assert(first.0.hashes =~= h.take(1));
        lemma_walk(first.0, parents, h);
        assert(forall|i: int| 0 <= i < n - 1 ==> #[trigger] steps[i] == StepView::FetchParent(
            (head.0 - 1 - i) as u64,
            c[i],
        ));
        assert forall|j: int| 0 <= j < n implies #[trigger] steps[n - 1 + j] == entry_step(
            ((head.0 - j) as u64, c[j]),
        ) by {
            assert(steps[n - 1 + j] == rest.1[n - 1 - 1 + j]);
        }
    }
}

} // verus!
