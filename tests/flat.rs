use trace_flatten::flat::{FlatBlockTraces, FlatTrace, FlatTransactionTraces};
use trace_flatten::trace::{Action, Address, BlockTraces, Call, CallResult, Create, Res, Trace, U256};

fn create_leaf(depth: usize) -> Trace {
    Trace {
        depth,
        action: Action::Create(Create {
            from: Address::from_u64(6),
            value: U256::from_u64(7),
            gas: U256::from_u64(8),
            init: vec![0x9],
        }),
        subs: vec![],
        result: Res::FailedCreate,
    }
}

fn call_node(depth: usize, subs: Vec<Trace>) -> Trace {
    Trace {
        depth,
        action: Action::Call(Call {
            from: Address::from_u64(1),
            to: Address::from_u64(2),
            value: U256::from_u64(3),
            gas: U256::from_u64(4),
            input: vec![0x5],
        }),
        subs,
        result: Res::Call(CallResult { gas_used: U256::from_u64(10), output: vec![0x11, 0x12] }),
    }
}

fn flatten_one(trace: Trace) -> Vec<FlatTrace> {
    let block_traces = FlatBlockTraces::from(BlockTraces::from(vec![trace]));
    let transaction_traces: Vec<FlatTransactionTraces> = block_traces.into();
    assert_eq!(transaction_traces.len(), 1);
    transaction_traces.into_iter().nth(0).unwrap().into()
}

/// Checks that parents and children agree, as every flattened array must.
fn assert_linked(traces: &Vec<FlatTrace>) {
    for (p, t) in traces.iter().enumerate() {
        match t.parent {
            Some(q) => {
                assert!(q < p);
                assert!(traces[q].children.contains(&p));
            }
            None => assert_eq!(p, 0),
        }
        let expected: Vec<usize> = (0..traces.len()).filter(|&c| traces[c].parent == Some(p)).collect();
        assert_eq!(t.children, expected);
    }
}

#[test]
fn test_block_from() {
    let trace = Trace {
        depth: 2,
        action: Action::Call(Call {
            from: Address::from_u64(1),
            to: Address::from_u64(2),
            value: U256::from_u64(3),
            gas: U256::from_u64(4),
            input: vec![0x5],
        }),
        subs: vec![
            Trace {
                depth: 3,
                action: Action::Create(Create {
                    from: Address::from_u64(6),
                    value: U256::from_u64(7),
                    gas: U256::from_u64(8),
                    init: vec![0x9],
                }),
                subs: vec![
                    Trace {
                        depth: 3,
                        action: Action::Create(Create {
                            from: Address::from_u64(6),
                            value: U256::from_u64(7),
                            gas: U256::from_u64(8),
                            init: vec![0x9],
                        }),
                        subs: vec![],
                        result: Res::FailedCreate,
                    },
                    Trace {
                        depth: 3,
                        action: Action::Create(Create {
                            from: Address::from_u64(6),
                            value: U256::from_u64(7),
                            gas: U256::from_u64(8),
                            init: vec![0x9],
                        }),
                        subs: vec![],
                        result: Res::FailedCreate,
                    },
                ],
                result: Res::FailedCreate,
            },
            Trace {
                depth: 3,
                action: Action::Create(Create {
                    from: Address::from_u64(6),
                    value: U256::from_u64(7),
                    gas: U256::from_u64(8),
                    init: vec![0x9],
                }),
                subs: vec![],
                result: Res::FailedCreate,
            },
        ],
        result: Res::Call(CallResult { gas_used: U256::from_u64(10), output: vec![0x11, 0x12] }),
    };

    let block_traces = FlatBlockTraces::from(BlockTraces::from(vec![trace]));
    let transaction_traces: Vec<FlatTransactionTraces> = block_traces.into();
    assert_eq!(transaction_traces.len(), 1);
    let ordered_traces: Vec<FlatTrace> = transaction_traces.into_iter().nth(0).unwrap().into();
    assert_eq!(ordered_traces.len(), 5);
    assert_eq!(ordered_traces[0].parent, None);
    assert_eq!(ordered_traces[0].children, vec![1, 4]);
    assert_eq!(ordered_traces[1].parent, Some(0));
    assert_eq!(ordered_traces[1].children, vec![2, 3]);
    assert_eq!(ordered_traces[2].parent, Some(1));
    assert_eq!(ordered_traces[2].children, vec![]);
    assert_eq!(ordered_traces[3].parent, Some(1));
    assert_eq!(ordered_traces[3].children, vec![]);
    assert_eq!(ordered_traces[4].parent, Some(0));
    assert_eq!(ordered_traces[4].children, vec![]);
}

#[test]
fn leaf_flattens_to_one_record() {
    let flat = flatten_one(create_leaf(0));
    assert_eq!(flat.len(), 1);
    assert_eq!(flat[0].parent, None);
    assert_eq!(flat[0].children, Vec::<usize>::new());
    assert_eq!(flat[0].depth, 0);
    assert!(matches!(flat[0].result, Res::FailedCreate));
}

#[test]
fn payloads_travel_unchanged() {
    let tree = call_node(2, vec![create_leaf(3)]);
    let flat = flatten_one(tree);
    assert_eq!(flat.len(), 2);
    assert_eq!(flat[0].depth, 2);
    assert_eq!(flat[1].depth, 3);
    match &flat[0].action {
        Action::Call(c) => {
            assert_eq!(c.input, vec![0x5]);
            assert_eq!(c.to.bytes[19], 2);
            assert_eq!(c.value.limbs, [3, 0, 0, 0]);
        }
        Action::Create(_) => panic!("root action changed"),
    }
    match &flat[0].result {
        Res::Call(r) => assert_eq!(r.output, vec![0x11, 0x12]),
        _ => panic!("root result changed"),
    }
    assert!(matches!(flat[1].action, Action::Create(_)));
}

#[test]
fn pre_order_keeps_sibling_subtrees_contiguous() {
    // depth numbers tag the nodes in the order a pre-order walk meets them
    let tree = call_node(0, vec![
        call_node(1, vec![create_leaf(2), call_node(3, vec![create_leaf(4)])]),
        create_leaf(5),
        call_node(6, vec![create_leaf(7), create_leaf(8)]),
    ]);
    let flat = flatten_one(tree);
    assert_eq!(flat.len(), 9);
    let depths: Vec<usize> = flat.iter().map(|t| t.depth).collect();
    assert_eq!(depths, vec![0, 1, 2, 3, 4, 5, 6, 7, 8]);
    assert_eq!(flat[0].children, vec![1, 5, 6]);
    assert_eq!(flat[1].children, vec![2, 3]);
    assert_eq!(flat[3].children, vec![4]);
    assert_eq!(flat[4].parent, Some(3));
    assert_eq!(flat[6].children, vec![7, 8]);
    assert_eq!(flat[8].parent, Some(6));
    assert_linked(&flat);
}

#[test]
fn subtree_sizes_add_up() {
    let tree = call_node(0, vec![
        call_node(1, vec![create_leaf(2), create_leaf(2), create_leaf(2)]),
        call_node(1, vec![call_node(2, vec![create_leaf(3)])]),
    ]);
    let flat = flatten_one(tree);
    // 1 + (1 + 3) + (1 + 1 + 1)
    assert_eq!(flat.len(), 8);
    assert_eq!(flat[0].children, vec![1, 5]);
    // the second child starts right after the four records of the first
    assert_eq!(flat[0].children[1] - flat[0].children[0], 4);
    assert_eq!(flat.len() - flat[0].children[1], 3);
    assert_linked(&flat);
}

#[test]
fn deep_chain() {
    let mut tree = create_leaf(50);
    for d in (0..50).rev() {
        tree = call_node(d, vec![tree]);
    }
    let flat = flatten_one(tree);
    assert_eq!(flat.len(), 51);
    for (p, t) in flat.iter().enumerate() {
        assert_eq!(t.depth, p);
        assert_eq!(t.parent, if p == 0 { None } else { Some(p - 1) });
        assert_eq!(t.children, if p == 50 { vec![] } else { vec![p + 1] });
    }
}

#[test]
fn wide_root() {
    let subs: Vec<Trace> = (0..100).map(|_| create_leaf(1)).collect();
    let flat = flatten_one(call_node(0, subs));
    assert_eq!(flat.len(), 101);
    assert_eq!(flat[0].children, (1..101).collect::<Vec<usize>>());
    assert!(flat[1..].iter().all(|t| t.parent == Some(0) && t.children.is_empty()));
}

#[test]
fn transactions_are_flattened_independently() {
    let first = call_node(0, vec![create_leaf(1), create_leaf(1)]);
    let second = call_node(0, vec![call_node(1, vec![create_leaf(2)])]);
    let block = FlatBlockTraces::from(BlockTraces::from(vec![first, second]));
    let txs: Vec<FlatTransactionTraces> = block.into();
    assert_eq!(txs.len(), 2);
    let mut it = txs.into_iter();
    let a: Vec<FlatTrace> = it.next().unwrap().into();
    let b: Vec<FlatTrace> = it.next().unwrap().into();
    assert_eq!(a.len(), 3);
    assert_eq!(a[0].parent, None);
    assert_eq!(a[0].children, vec![1, 2]);
    assert_eq!(b.len(), 3);
    assert_eq!(b[0].parent, None);
    assert_eq!(b[0].children, vec![1]);
    assert_eq!(b[1].children, vec![2]);
    assert_eq!(b[2].parent, Some(1));
    assert_linked(&a);
    assert_linked(&b);
}

#[test]
fn empty_block_gives_no_transactions() {
    let block = FlatBlockTraces::from(BlockTraces::from(vec![]));
    let txs: Vec<FlatTransactionTraces> = block.into();
    assert!(txs.is_empty());
}

#[test]
fn transaction_from_root_matches_block() {
    let flat: Vec<FlatTrace> = FlatTransactionTraces::from(call_node(0, vec![create_leaf(1)])).into();
    assert_eq!(flat.len(), 2);
    assert_eq!(flat[0].children, vec![1]);
    assert_eq!(flat[1].parent, Some(0));
}

#[test]
fn flatten_places_subtree_at_given_position() {
    let flat = FlatBlockTraces::flatten(Some(3), 10, call_node(1, vec![create_leaf(2), create_leaf(2)]));
    assert_eq!(flat.len(), 3);
    assert_eq!(flat[0].parent, Some(3));
    assert_eq!(flat[0].children, vec![11, 12]);
    assert_eq!(flat[1].parent, Some(10));
    assert_eq!(flat[2].parent, Some(10));
}

#[test]
fn block_traces_round_trip() {
    let traces: Vec<Trace> = BlockTraces::from(vec![create_leaf(4), create_leaf(5)]).into();
    assert_eq!(traces.len(), 2);
    assert_eq!(traces[1].depth, 5);
}

#[test]
fn address_from_u64_is_big_endian() {
    let a = Address::from_u64(0x0102_0304_0506_0708);
    assert_eq!(a.bytes[..12], [0u8; 12]);
    assert_eq!(a.bytes[12..], [1, 2, 3, 4, 5, 6, 7, 8]);
    assert_eq!(Address::from_u64(1).bytes[19], 1);
    assert_eq!(Address::from_u64(u64::MAX).bytes[12..], [0xff; 8]);
}

#[test]
fn u256_from_u64_fills_low_limb() {
    assert_eq!(U256::from_u64(10).limbs, [10, 0, 0, 0]);
    assert_eq!(U256::from_u64(u64::MAX).limbs, [u64::MAX, 0, 0, 0]);
}
