use blockchain::{Block, Blockchain, Consensus, Definition, FakeConsensus, Hashable, TransitionRule};
use vstd::seq::Seq;

/// A ledger whose world state is the sum of all transactions.
#[derive(Debug, Clone, Eq, PartialEq)]
struct AdderDefinition;

#[derive(Debug, Clone, Eq, PartialEq, Default)]
struct AdderBlock {
    number: usize,
    sum: usize,
}

struct AdderTransitionRule;

impl Definition for AdderDefinition {
    type Transaction = usize;
    type Extra = ();
    type Hash = usize;
    type WorldState = usize;
    type Block = AdderBlock;
    type TransitionRule = AdderTransitionRule;
    type Consensus = FakeConsensus<AdderBlock, ()>;
}

impl Block for AdderBlock {
    type Transaction = usize;
    type Extra = ();
    type Hash = usize;

    fn spec_next(&self, _transactions: Seq<usize>, _extra: Seq<()>, new_world_state_hash: usize) -> AdderBlock {
        AdderBlock { number: self.number + 1, sum: new_world_state_hash }
    }

    fn spec_is_next(
        &self,
        other: &AdderBlock,
        transactions: Seq<usize>,
        extra: Seq<()>,
        new_world_state_hash: usize,
    ) -> bool {
        self.spec_next(transactions, extra, new_world_state_hash) == *other
    }

    fn next(&self, _transactions: &[usize], _extra: &[()], new_world_state_hash: usize) -> AdderBlock {
        AdderBlock { number: self.number + 1, sum: new_world_state_hash }
    }

    fn is_next(
        &self,
        other: &AdderBlock,
        transactions: &[usize],
        extra: &[()],
        new_world_state_hash: usize,
    ) -> bool {
        self.next(transactions, extra, new_world_state_hash) == *other
    }
}

impl TransitionRule for AdderTransitionRule {
    type Block = AdderBlock;
    type Transaction = usize;
    type Extra = ();
    type WorldState = usize;

    fn spec_transit(_current_block: &AdderBlock, transaction: &usize, state: &usize) -> (usize, ()) {
        (*transaction + *state, ())
    }

    fn transit(_current_block: &AdderBlock, transaction: &usize, state: &usize) -> (usize, ()) {
        (*transaction + *state, ())
    }
}

fn block(number: usize, sum: usize) -> AdderBlock {
    AdderBlock { number, sum }
}

fn adder_at_genesis() -> Blockchain<AdderDefinition> {
    Blockchain::new(block(0, 0), 0)
}

#[test]
fn new_ledger_holds_what_it_was_given() {
    let ledger: Blockchain<AdderDefinition> = Blockchain::new(block(4, 9), 9);
    assert_eq!(ledger.current_block(), &block(4, 9));
    assert_eq!(*ledger.current_world_state(), 9);
}

#[test]
fn default_ledger_holds_the_default_block_and_state() {
    let ledger: Blockchain<AdderDefinition> = Blockchain::default();
    assert_eq!(ledger.current_block(), &block(0, 0));
    assert_eq!(*ledger.current_world_state(), 0);
    assert_eq!(ledger, adder_at_genesis());
}

#[test]
fn adder_mines_and_verifies() {
    let mut ledger = adder_at_genesis();

    ledger.mine(&[1]);
    assert_eq!(ledger.current_block(), &block(1, 1));
    assert_eq!(*ledger.current_world_state(), 1);
    let after_first = ledger.clone();

    ledger.mine(&[2, 3]);
    assert_eq!(ledger.current_block(), &block(2, 6));
    assert_eq!(*ledger.current_world_state(), 6);

    let mut accepting = after_first.clone();
    assert!(accepting.verify(block(2, 6), &[2, 3]));
    assert_eq!(accepting.current_block(), &block(2, 6));
    assert_eq!(*accepting.current_world_state(), 6);

    let mut refusing = after_first.clone();
    assert!(!refusing.verify(block(2, 7), &[2, 3]));
    assert_eq!(refusing.current_block(), &block(1, 1));
    assert_eq!(*refusing.current_world_state(), 1);
    assert_eq!(refusing, after_first);
}

#[test]
fn mine_without_transactions_still_builds_a_block() {
    let mut ledger: Blockchain<AdderDefinition> = Blockchain::new(block(3, 5), 5);
    ledger.mine(&[]);
    assert_eq!(ledger.current_block(), &block(4, 5));
    assert_eq!(*ledger.current_world_state(), 5);
}

#[test]
fn verify_without_transactions_checks_against_the_current_state() {
    let mut ledger: Blockchain<AdderDefinition> = Blockchain::new(block(3, 5), 5);
    assert!(!ledger.verify(block(4, 6), &[]));
    assert_eq!(ledger.current_block(), &block(3, 5));
    assert!(ledger.verify(block(4, 5), &[]));
    assert_eq!(ledger.current_block(), &block(4, 5));
    assert_eq!(*ledger.current_world_state(), 5);
}

#[test]
fn verify_refuses_a_block_with_the_wrong_number() {
    let mut ledger = adder_at_genesis();
    assert!(!ledger.verify(block(2, 1), &[1]));
    assert!(!ledger.verify(block(0, 1), &[1]));
    assert_eq!(ledger, adder_at_genesis());
    assert!(ledger.verify(block(1, 1), &[1]));
}

#[test]
fn a_mined_block_verifies_on_a_ledger_in_the_same_state() {
    let starts: Vec<(AdderBlock, usize)> = vec![(block(0, 0), 0), (block(7, 40), 40), (block(2, 6), 6)];
    let batches: Vec<Vec<usize>> = vec![vec![], vec![1], vec![2, 3], vec![5, 0, 5, 10]];

    for (start_block, start_state) in starts.iter() {
        for batch in batches.iter() {
            let mut miner: Blockchain<AdderDefinition> = Blockchain::new(start_block.clone(), *start_state);
            let mut verifier = miner.clone();

            miner.mine(batch);
            assert!(verifier.verify(miner.current_block().clone(), batch));
            assert_eq!(verifier, miner);
        }
    }
}

#[test]
fn mine_is_deterministic() {
    let mut one: Blockchain<AdderDefinition> = Blockchain::new(block(7, 40), 40);
    let mut other: Blockchain<AdderDefinition> = Blockchain::new(block(7, 40), 40);
    one.mine(&[4, 5, 6]);
    other.mine(&[4, 5, 6]);
    assert_eq!(one, other);
    assert_eq!(one.current_block(), &block(8, 55));
    assert_eq!(*one.current_world_state(), 55);
}

/// A ledger that records what each call was handed.
#[derive(Debug, Clone, Eq, PartialEq)]
struct TraceDefinition;

/// A block that keeps the transactions and extras it was built from.
#[derive(Debug, Clone, Eq, PartialEq)]
struct TraceBlock {
    height: u32,
    transactions: Vec<u32>,
    extras: Vec<(u32, u32, u32)>,
    state_hash: u64,
    seal: u32,
}

#[derive(Debug, Clone, Eq, PartialEq)]
struct TraceState {
    total: u32,
}

impl Hashable<u64> for TraceState {
    fn spec_hash(&self) -> u64 {
        1000 + self.total as u64
    }

    fn hash(&self) -> u64 {
        1000 + self.total as u64
    }
}

struct TraceRule;

/// A consensus that stamps each block it seals and passes stamped blocks.
struct StampConsensus;

impl Definition for TraceDefinition {
    type Transaction = u32;
    type Extra = (u32, u32, u32);
    type Hash = u64;
    type WorldState = TraceState;
    type Block = TraceBlock;
    type TransitionRule = TraceRule;
    type Consensus = StampConsensus;
}

fn trace_successor(before: &TraceBlock, transactions: Vec<u32>, extras: Vec<(u32, u32, u32)>, hash: u64) -> TraceBlock {
    TraceBlock { height: before.height + 1, transactions, extras, state_hash: hash, seal: 0 }
}

impl Block for TraceBlock {
    type Transaction = u32;
    type Extra = (u32, u32, u32);
    type Hash = u64;

    // The two that follow are read by contracts only; nothing runs them.
    fn spec_next(&self, _transactions: Seq<u32>, _extra: Seq<(u32, u32, u32)>, _hash: u64) -> TraceBlock {
        unreachable!()
    }

    fn spec_is_next(&self, _other: &TraceBlock, _transactions: Seq<u32>, _extra: Seq<(u32, u32, u32)>, _hash: u64) -> bool {
        unreachable!()
    }

    fn next(&self, transactions: &[u32], extra: &[(u32, u32, u32)], hash: u64) -> TraceBlock {
        trace_successor(self, transactions.to_vec(), extra.to_vec(), hash)
    }

    fn is_next(&self, other: &TraceBlock, transactions: &[u32], extra: &[(u32, u32, u32)], hash: u64) -> bool {
        let expected = self.next(transactions, extra, hash);
        TraceBlock { seal: 0, ..other.clone() } == expected
    }
}

impl TransitionRule for TraceRule {
    type Block = TraceBlock;
    type Transaction = u32;
    type Extra = (u32, u32, u32);
    type WorldState = TraceState;

    fn spec_transit(current_block: &TraceBlock, transaction: &u32, state: &TraceState) -> (TraceState, (u32, u32, u32)) {
        Self::transit(current_block, transaction, state)
    }

    fn transit(current_block: &TraceBlock, transaction: &u32, state: &TraceState) -> (TraceState, (u32, u32, u32)) {
        (TraceState { total: state.total + *transaction }, (current_block.height, *transaction, state.total))
    }
}

impl Consensus for StampConsensus {
    type Block = TraceBlock;
    type Extra = (u32, u32, u32);

    fn seals(before: TraceBlock, after: TraceBlock) -> bool {
        TraceBlock { seal: before.seal, ..after } == before
    }

    fn spec_verify(block: &TraceBlock) -> bool {
        block.seal != 0
    }

    fn mine(block: &mut TraceBlock) {
        block.seal = 77;
    }

    fn verify(block: &TraceBlock) -> bool {
        block.seal != 0
    }
}

fn trace_genesis() -> Blockchain<TraceDefinition> {
    Blockchain::new(
        TraceBlock { height: 10, transactions: vec![], extras: vec![], state_hash: 0, seal: 0 },
        TraceState { total: 5 },
    )
}

#[test]
fn mine_folds_the_transactions_in_order_and_collects_the_extras() {
    let mut ledger = trace_genesis();
    ledger.mine(&[1, 2, 3]);

    // Each transition saw the block before mining and the state left by the
    // transition before it.
    assert_eq!(
        ledger.current_block(),
        &TraceBlock {
            height: 11,
            transactions: vec![1, 2, 3],
            extras: vec![(10, 1, 5), (10, 2, 6), (10, 3, 8)],
            state_hash: 1011,
            seal: 77,
        }
    );
    assert_eq!(ledger.current_world_state(), &TraceState { total: 11 });

    ledger.mine(&[4]);
    assert_eq!(
        ledger.current_block(),
        &TraceBlock { height: 12, transactions: vec![4], extras: vec![(11, 4, 11)], state_hash: 1015, seal: 77 }
    );
    assert_eq!(ledger.current_world_state(), &TraceState { total: 15 });
}

#[test]
fn mine_has_the_consensus_seal_the_block() {
    let mut ledger = trace_genesis();
    ledger.mine(&[]);
    assert_eq!(ledger.current_block().seal, 77);
    assert_eq!(ledger.current_block().height, 11);
    assert_eq!(ledger.current_block().state_hash, 1005);
    assert!(StampConsensus::verify(ledger.current_block()));
    assert_eq!(ledger.current_world_state(), &TraceState { total: 5 });
}

#[test]
fn verify_accepts_a_block_whatever_its_seal() {
    let candidate = |seal: u32| TraceBlock {
        height: 11,
        transactions: vec![1, 2],
        extras: vec![(10, 1, 5), (10, 2, 6)],
        state_hash: 1008,
        seal,
    };

    let mut ledger = trace_genesis();
    assert!(ledger.verify(candidate(3), &[1, 2]));
    assert_eq!(ledger.current_block(), &candidate(3));
    assert_eq!(ledger.current_world_state(), &TraceState { total: 8 });

    let mut ledger = trace_genesis();
    assert!(ledger.verify(candidate(0), &[1, 2]));
    assert_eq!(ledger.current_block(), &candidate(0));
}

#[test]
fn verify_refuses_a_block_for_other_transactions() {
    let mut ledger = trace_genesis();
    let mut miner = trace_genesis();
    miner.mine(&[1, 2]);

    assert!(!ledger.verify(miner.current_block().clone(), &[2, 1]));
    assert_eq!(ledger, trace_genesis());
    assert!(!ledger.verify(miner.current_block().clone(), &[1]));
    assert_eq!(ledger, trace_genesis());
    assert!(!ledger.verify(miner.current_block().clone(), &[]));
    assert_eq!(ledger, trace_genesis());

    assert!(ledger.verify(miner.current_block().clone(), &[1, 2]));
    assert_eq!(ledger, miner);
}

#[test]
fn a_sealed_block_verifies_on_a_ledger_in_the_same_state() {
    let mut miner = trace_genesis();
    let mut verifier = trace_genesis();
    for batch in [vec![], vec![9], vec![1, 2, 3], vec![0, 0]] {
        miner.mine(&batch);
        assert!(verifier.verify(miner.current_block().clone(), &batch));
        assert_eq!(verifier, miner);
    }
}

#[test]
fn a_copy_value_is_its_own_hash() {
    assert_eq!(Hashable::<usize>::hash(&5usize), 5);
    assert_eq!(Hashable::<u64>::hash(&0u64), 0);
    assert_eq!(Hashable::<(u8, bool)>::hash(&(3u8, true)), (3u8, true));
    assert_eq!(Hashable::<char>::hash(&'x'), 'x');
}

#[test]
fn fake_consensus_leaves_the_block_and_passes_it() {
    let mut sealed = block(3, 9);
    <FakeConsensus<AdderBlock, ()> as Consensus>::mine(&mut sealed);
    assert_eq!(sealed, block(3, 9));
    assert!(<FakeConsensus<AdderBlock, ()> as Consensus>::verify(&sealed));
    assert!(<FakeConsensus<AdderBlock, ()> as Consensus>::verify(&block(0, 0)));
}

#[test]
fn fake_consensus_has_a_default_and_clones() {
    let consensus: FakeConsensus<AdderBlock, ()> = FakeConsensus::default();
    let _copy = consensus.clone();
}
