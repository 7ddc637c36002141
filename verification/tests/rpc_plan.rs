use witness_generator::rpc::{
    block_entry_name, BlockCollection, BlockHash, BlockTag, RPCBlocksAndWitnesses,
    RPCBlocksAndWitnessesBuilder, Request, Response, Step, MAX_RESPONSE_SIZE,
};

fn hash(n: u8) -> BlockHash {
    [n; 32]
}

fn hex(h: &BlockHash) -> String {
    let digits: String = h.iter().map(|b| format!("{:02x}", b)).collect();
    format!("0x{}", digits)
}

fn settings(n: usize) -> RPCBlocksAndWitnesses {
    RPCBlocksAndWitnessesBuilder::new("http://localhost:8545".to_string()).last_n_blocks(n).build()
}

fn entry(number: u64, h: BlockHash) -> Step {
    Step::Fetch(Request::WitnessAndBlock { number, hash: h, name: format!("mainnet_block_{}", number) })
}

#[test]
fn entry_names_follow_block_numbers() {
    assert_eq!(block_entry_name(0), "mainnet_block_0");
    assert_eq!(block_entry_name(22_500_001), "mainnet_block_22500001");
}

#[test]
fn builder_defaults_to_one_latest_block() {
    let s = RPCBlocksAndWitnessesBuilder::new("http://rpc".to_string()).build();
    assert_eq!(s.url(), "http://rpc");
    assert_eq!(s.last_n_blocks(), 1);
    assert_eq!(s.head(), BlockTag::Latest);
    assert!(s.header_map().is_empty());
    let d = RPCBlocksAndWitnessesBuilder::default().build();
    assert_eq!(d.url(), "");
    assert_eq!(d.last_n_blocks(), 1);
}

#[test]
fn builder_keeps_headers_and_count() {
    let s = RPCBlocksAndWitnessesBuilder::new("http://rpc".to_string())
        .with_headers(vec![("X-Token".to_string(), "t0k".to_string())])
        .unwrap()
        .last_n_blocks(5)
        .build();
    assert_eq!(s.last_n_blocks(), 5);
    assert_eq!(s.header_map().get("x-token").unwrap(), "t0k");
    assert_eq!(s.head(), BlockTag::Latest);
}

#[test]
fn builder_refuses_invalid_headers() {
    let r = RPCBlocksAndWitnessesBuilder::new("http://rpc".to_string())
        .with_headers(vec![("bad name".to_string(), "v".to_string())]);
    assert_eq!(r.unwrap_err().message(), "invalid HTTP header name");
    let r = RPCBlocksAndWitnessesBuilder::new("http://rpc".to_string())
        .with_headers(vec![("good".to_string(), "v\r\n".to_string())]);
    assert_eq!(r.unwrap_err().message(), "failed to parse header value");
}

#[test]
fn specific_block_collects_that_block_only() {
    let s = RPCBlocksAndWitnessesBuilder::new("http://rpc".to_string())
        .last_n_blocks(7)
        .specific_block(1234)
        .build();
    assert_eq!(s.head(), BlockTag::Number(1234));
    assert_eq!(s.last_n_blocks(), 1);
    let (mut plan, step) = BlockCollection::start(&s);
    assert_eq!(step, Step::Fetch(Request::HeadBlock(BlockTag::Number(1234))));
    let step = plan.respond(Response::Head(Some((1234, hash(9)))));
    assert_eq!(step, entry(1234, hash(9)));
    assert_eq!(plan.respond(Response::Block(true)), Step::Done);
}

#[test]
fn zero_blocks_requests_nothing() {
    let (_, step) = BlockCollection::start(&settings(0));
    assert_eq!(step, Step::Done);
}

#[test]
fn last_three_blocks_walk_back_then_collect() {
    let (mut plan, step) = BlockCollection::start(&settings(3));
    assert_eq!(step, Step::Fetch(Request::HeadBlock(BlockTag::Latest)));
    let step = plan.respond(Response::Head(Some((100, hash(100)))));
    assert_eq!(step, Step::Fetch(Request::ParentOf { number: 99, hash: hash(100) }));
    let step = plan.respond(Response::Parent(Some(hash(99))));
    assert_eq!(step, Step::Fetch(Request::ParentOf { number: 98, hash: hash(99) }));
    let step = plan.respond(Response::Parent(Some(hash(98))));
    assert_eq!(step, entry(100, hash(100)));
    assert_eq!(plan.respond(Response::Block(true)), entry(99, hash(99)));
    assert_eq!(plan.respond(Response::Block(true)), entry(98, hash(98)));
    assert_eq!(plan.respond(Response::Block(true)), Step::Done);
}

#[test]
fn last_blocks_down_to_genesis() {
    let (mut plan, _) = BlockCollection::start(&settings(2));
    assert!(plan.can_accept(&Response::Head(Some((1, hash(1))))));
    let step = plan.respond(Response::Head(Some((1, hash(1)))));
    assert_eq!(step, Step::Fetch(Request::ParentOf { number: 0, hash: hash(1) }));
    assert_eq!(plan.respond(Response::Parent(Some(hash(0)))), entry(1, hash(1)));
    assert_eq!(plan.respond(Response::Block(true)), entry(0, hash(0)));
    assert_eq!(plan.respond(Response::Block(true)), Step::Done);
}

#[test]
fn head_too_low_for_the_count_is_refused() {
    let (plan, _) = BlockCollection::start(&settings(5));
    assert!(!plan.can_accept(&Response::Head(Some((3, hash(3))))));
    assert!(plan.can_accept(&Response::Head(Some((4, hash(4))))));
    assert!(plan.can_accept(&Response::Head(None)));
    assert!(!plan.can_accept(&Response::Block(true)));
    assert!(!plan.can_accept(&Response::Parent(None)));
}

#[test]
fn missing_head_block_fails() {
    let (mut plan, _) = BlockCollection::start(&settings(2));
    assert_eq!(plan.respond(Response::Head(None)), Step::Failed("No block found".to_string()));
}

#[test]
fn missing_parent_block_fails_with_number() {
    let (mut plan, _) = BlockCollection::start(&settings(4));
    plan.respond(Response::Head(Some((50, hash(50)))));
    plan.respond(Response::Parent(Some(hash(49))));
    assert_eq!(
        plan.respond(Response::Parent(None)),
        Step::Failed("No block found for number 48".to_string())
    );
}

#[test]
fn missing_collected_block_fails_with_hash() {
    let (mut plan, _) = BlockCollection::start(&settings(2));
    plan.respond(Response::Head(Some((10, hash(0xab)))));
    plan.respond(Response::Parent(Some(hash(0x0c))));
    assert_eq!(plan.respond(Response::Block(true)), entry(9, hash(0x0c)));
    assert_eq!(
        plan.respond(Response::Block(false)),
        Step::Failed(format!("No block found for hash {}", hex(&hash(0x0c))))
    );
}

#[test]
fn with_headers_replaces_earlier_headers() {
    let s = RPCBlocksAndWitnessesBuilder::new("http://rpc".to_string())
        .with_headers(vec![("A".to_string(), "1".to_string())])
        .unwrap()
        .with_headers(vec![("B".to_string(), "2".to_string())])
        .unwrap()
        .build();
    assert!(s.header_map().get("a").is_none());
    assert_eq!(s.header_map().get("b").unwrap(), "2");
    assert_eq!(s.header_map().len(), 1);
}

#[test]
fn settings_carry_response_limit_and_clone() {
    let b = RPCBlocksAndWitnessesBuilder::new("http://rpc".to_string())
        .with_headers(vec![("K".to_string(), "v".to_string())])
        .unwrap()
        .last_n_blocks(3);
    let s = b.clone().build();
    assert_eq!(s.max_response_size(), 1 << 30);
    assert_eq!(MAX_RESPONSE_SIZE, 1 << 30);
    let c = s.clone();
    assert_eq!(c.url(), "http://rpc");
    assert_eq!(c.last_n_blocks(), 3);
    assert_eq!(c.header_map().get("k").unwrap(), "v");
    assert_eq!(b.build().last_n_blocks(), 3);
}

#[test]
fn with_no_headers_clears_them() {
    let s = RPCBlocksAndWitnessesBuilder::new("http://rpc".to_string())
        .with_headers(vec![("A".to_string(), "1".to_string())])
        .unwrap()
        .with_headers(vec![])
        .unwrap()
        .build();
    assert!(s.header_map().is_empty());
}
