//! The core of a ledger: a world state that transactions change one by one,
//! blocks that are mined from it and verified against it, and, in `chain`,
//! a store of parent-linked headers that keeps track of the best head.

use std::marker::PhantomData;
use vstd::prelude::*;

pub mod chain;
pub mod consensus;

verus! {

/// How a freshly built block is sealed, and how a sealed block is checked.
pub trait Consensus {
    type Block: Block;

    type Extra;

    /// Whether sealing may turn the block `before` into the block `after`.
    spec fn seals(before: Self::Block, after: Self::Block) -> bool;

    /// Whether `block` passes the check.
    spec fn spec_verify(block: &Self::Block) -> bool;

    /// Seals `block`, which may change it.
    fn mine(block: &mut Self::Block)
        ensures
            Self::seals(*old(block), *final(block)),
    ;

    /// Checks `block`.
    fn verify(block: &Self::Block) -> (r: bool)
        ensures
            r == Self::spec_verify(block),
    ;
}

/// A consensus that leaves every block as it is and passes every block.
#[derive(Debug)]
pub struct FakeConsensus<B, E> {
    block: PhantomData<B>,
    extra: PhantomData<E>,
}

impl<B, E> Clone for FakeConsensus<B, E> {
    fn clone(&self) -> (r: Self)
        ensures
            r == *self,
    {
        Self { block: PhantomData, extra: PhantomData }
    }
}

impl<B, E> Default for FakeConsensus<B, E> {
    fn default() -> Self {
        Self { block: PhantomData, extra: PhantomData }
    }
}

impl<B: Block, E> Consensus for FakeConsensus<B, E> {
    type Block = B;

    type Extra = E;

    open spec fn seals(before: B, after: B) -> bool {
        after == before
    }

    open spec fn spec_verify(block: &B) -> bool {
        true
    }

    fn mine(block: &mut B) {
    }

    fn verify(block: &B) -> (r: bool) {
        true
    }
}

/// A value that has a hash of type `T`.
pub trait Hashable<T> {
    /// The value's hash.
    spec fn spec_hash(&self) -> T;

    /// Computes the value's hash.
    fn hash(&self) -> (r: T)
        ensures
            r == self.spec_hash(),
    ;
}

/// A value that can be copied is its own hash.
impl<T: Copy> Hashable<T> for T {
    open spec fn spec_hash(&self) -> T {
        *self
    }

    fn hash(&self) -> (r: T) {
        *self
    }
}

/// A block that can build its successor and recognise one.
pub trait Block: Sized {
    type Transaction;

    type Extra;

    type Hash;

    /// The successor of this block for the given transactions, their extras
    /// and the hash of the world state they lead to.
    spec fn spec_next(
        &self,
        transactions: Seq<Self::Transaction>,
        extra: Seq<Self::Extra>,
        new_world_state_hash: Self::Hash,
    ) -> Self;

    /// Whether `other` is a successor of this block for the given
    /// transactions, their extras and the hash of the world state they lead
    /// to.
    spec fn spec_is_next(
        &self,
        other: &Self,
        transactions: Seq<Self::Transaction>,
        extra: Seq<Self::Extra>,
        new_world_state_hash: Self::Hash,
    ) -> bool;

    /// Builds the successor of this block.
    fn next(
        &self,
        transactions: &[Self::Transaction],
        extra: &[Self::Extra],
        new_world_state_hash: Self::Hash,
    ) -> (r: Self)
        ensures
            r == self.spec_next(transactions@, extra@, new_world_state_hash),
    ;

    /// Tells whether `other` is a successor of this block.
    fn is_next(
        &self,
        other: &Self,
        transactions: &[Self::Transaction],
        extra: &[Self::Extra],
        new_world_state_hash: Self::Hash,
    ) -> (r: bool)
        ensures
            r == self.spec_is_next(other, transactions@, extra@, new_world_state_hash),
    ;
}

/// The rule by which one transaction changes the world state.
pub trait TransitionRule {
    type Block;

    type Transaction;

    type Extra;

    type WorldState;

    /// The world state after `transaction`, and the transaction's extra.
    spec fn spec_transit(
        current_block: &Self::Block,
        transaction: &Self::Transaction,
        state: &Self::WorldState,
    ) -> (Self::WorldState, Self::Extra);

    /// Applies `transaction` to `state`.
    fn transit(
        current_block: &Self::Block,
        transaction: &Self::Transaction,
        state: &Self::WorldState,
    ) -> (r: (Self::WorldState, Self::Extra))
        ensures
            r == Self::spec_transit(current_block, transaction, state),
    ;
}

/// The types that make up one ledger.
pub trait Definition {
    type Transaction;

    type Extra;

    type Hash;

    type WorldState: Hashable<Self::Hash>;

    type Block: Block<Transaction = Self::Transaction, Extra = Self::Extra, Hash = Self::Hash>;

    type TransitionRule: TransitionRule<
        Block = Self::Block,
        Transaction = Self::Transaction,
        Extra = Self::Extra,
        WorldState = Self::WorldState,
    >;

    type Consensus: Consensus<Block = Self::Block, Extra = Self::Extra>;
}

/// What a ledger is: its current block and the world state that belongs to
/// it.
pub struct LedgerView<B, W> {
    pub block: B,
    pub world_state: W,
}

/// The world state reached from `state` by the transactions in their order,
/// each judged against `block`, and the extras they gave, in the same order.
pub open spec fn transit_all<D: Definition>(
    block: D::Block,
    state: D::WorldState,
    transactions: Seq<D::Transaction>,
) -> (D::WorldState, Seq<D::Extra>)
    decreases transactions.len(),
{
    if transactions.len() == 0 {
        (state, Seq::empty())
    } else {
        let (before, extras) = transit_all::<D>(block, state, transactions.drop_last());
        let (after, extra) = D::TransitionRule::spec_transit(&block, &transactions.last(), &before);
        (after, extras.push(extra))
    }
}

/// The block that follows the ledger's current block for `transactions`,
/// before it is sealed.
pub open spec fn successor<D: Definition>(
    ledger: LedgerView<D::Block, D::WorldState>,
    transactions: Seq<D::Transaction>,
) -> D::Block {
    let (state, extras) = transit_all::<D>(ledger.block, ledger.world_state, transactions);
    ledger.block.spec_next(transactions, extras, state.spec_hash())
}

/// Whether `block` is recognised as following the ledger's current block for
/// `transactions`.
pub open spec fn is_successor<D: Definition>(
    ledger: LedgerView<D::Block, D::WorldState>,
    block: D::Block,
    transactions: Seq<D::Transaction>,
) -> bool {
    let (state, extras) = transit_all::<D>(ledger.block, ledger.world_state, transactions);
    ledger.block.spec_is_next(&block, transactions, extras, state.spec_hash())
}

/// Whether a ledger that stood at `before` may stand at `after` once it has
/// mined `transactions`: the world state is the one that the transactions
/// lead to, and the block is the sealed follower of the block before.
pub open spec fn mines<D: Definition>(
    before: LedgerView<D::Block, D::WorldState>,
    transactions: Seq<D::Transaction>,
    after: LedgerView<D::Block, D::WorldState>,
) -> bool {
    &&& after.world_state == transit_all::<D>(before.block, before.world_state, transactions).0
    &&& D::Consensus::seals(successor::<D>(before, transactions), after.block)
}

/// Where a ledger that stood at `before` stands once it has been asked to
/// verify `block` for `transactions`: at `block` and the world state that
/// the transactions lead to, if `block` is recognised; else where it stood.
pub open spec fn verifies<D: Definition>(
    before: LedgerView<D::Block, D::WorldState>,
    block: D::Block,
    transactions: Seq<D::Transaction>,
) -> LedgerView<D::Block, D::WorldState> {
    if is_successor::<D>(before, block, transactions) {
        LedgerView {
            block,
            world_state: transit_all::<D>(before.block, before.world_state, transactions).0,
        }
    } else {
        before
    }
}

/// Whether the blocks of `D` recognise what its consensus seals: a block
/// built as the follower of another, once sealed, is recognised as following
/// it for the same transactions, extras and hash.
pub open spec fn recognises_sealed<D: Definition>() -> bool {
    forall|
        block: D::Block,
        transactions: Seq<D::Transaction>,
        extra: Seq<D::Extra>,
        hash: D::Hash,
        sealed: D::Block,
    |
        D::Consensus::seals(#[trigger] block.spec_next(transactions, extra, hash), sealed)
            ==> #[trigger] block.spec_is_next(&sealed, transactions, extra, hash)
}

/// A block that a ledger mined is verified by a ledger that stands where the
/// first stood, for the same transactions, and takes that ledger to where
/// the first then stood.
pub proof fn lemma_mined_block_verifies<D: Definition>(
    before: LedgerView<D::Block, D::WorldState>,
    transactions: Seq<D::Transaction>,
    after: LedgerView<D::Block, D::WorldState>,
)
    requires
        recognises_sealed::<D>(),
        mines::<D>(before, transactions, after),
    ensures
        is_successor::<D>(before, after.block, transactions),
        verifies::<D>(before, after.block, transactions) == after,
{
}

/// Two ledgers that stood at the same place and mined the same transactions
/// hold the same world state, and their blocks were sealed from one and the
/// same block; where sealing changes nothing, they hold the same block.
pub proof fn lemma_mine_is_deterministic<D: Definition>(
    before: LedgerView<D::Block, D::WorldState>,
    transactions: Seq<D::Transaction>,
    one: LedgerView<D::Block, D::WorldState>,
    other: LedgerView<D::Block, D::WorldState>,
)
    requires
        mines::<D>(before, transactions, one),
        mines::<D>(before, transactions, other),
    ensures
        one.world_state == other.world_state,
        D::Consensus::seals(successor::<D>(before, transactions), one.block),
        D::Consensus::seals(successor::<D>(before, transactions), other.block),
        (forall|built: D::Block, sealed: D::Block| #[trigger]
            D::Consensus::seals(built, sealed) ==> sealed == built) ==> one == other,
{
}

/// A ledger: one current block and the world state that belongs to it.
#[derive(Debug, Clone, Eq, PartialEq)]
pub struct Blockchain<D: Definition> {
    current_block: D::Block,
    current_world_state: D::WorldState,
}

impl<D: Definition> Default for Blockchain<D> where D::WorldState: Default, D::Block: Default {
    /// A ledger that stands at the default block with the default world
    /// state.
    fn default() -> (ledger: Self)
        ensures
            call_ensures(D::Block::default, (), ledger@.block),
            call_ensures(D::WorldState::default, (), ledger@.world_state),
    {
        Self { current_world_state: D::WorldState::default(), current_block: D::Block::default() }
    }
}

impl<D: Definition> View for Blockchain<D> {
    type V = LedgerView<D::Block, D::WorldState>;

    closed spec fn view(&self) -> LedgerView<D::Block, D::WorldState> {
        LedgerView { block: self.current_block, world_state: self.current_world_state }
    }
}

impl<D: Definition> Blockchain<D> {
    /// A ledger that stands at `block` with `world_state`.
    pub fn new(block: D::Block, world_state: D::WorldState) -> (ledger: Self)
        ensures
            ledger@ == (LedgerView { block, world_state }),
    {
        Self { current_block: block, current_world_state: world_state }
    }

    /// The current world state.
    pub fn current_world_state(&self) -> (state: &D::WorldState)
        ensures
            *state == self@.world_state,
    {
        &self.current_world_state
    }

    /// The current block.
    pub fn current_block(&self) -> (block: &D::Block)
        ensures
            *block == self@.block,
    {
        &self.current_block
    }

    /// Runs the transactions, in their order, from the current world state.
    /// Returns the world state reached, or `None` where there was no
    /// transaction and the current world state stands, and the extras.
    fn run(&self, transactions: &[D::Transaction]) -> (r: (Option<D::WorldState>, Vec<D::Extra>))
        ensures
            r.1@ == transit_all::<D>(self@.block, self@.world_state, transactions@).1,
            r.0 is Some ==> r.0->0 == transit_all::<D>(
                self@.block,
                self@.world_state,
                transactions@,
            ).0,
            r.0 is None ==> transactions@.len() == 0,
    {
        let mut extras: Vec<D::Extra> = Vec::new();
        let mut world_state: Option<D::WorldState> = None;
        let mut done: usize = 0;

        while done < transactions.len()
            invariant
                done <= transactions@.len(),
                extras@ == transit_all::<D>(
                    self@.block,
                    self@.world_state,
                    transactions@.take(done as int),
                ).1,
                world_state is Some ==> world_state->0 == transit_all::<D>(
                    self@.block,
                    self@.world_state,
                    transactions@.take(done as int),
                ).0,
                world_state is None ==> done == 0,
            decreases transactions@.len() - done,
        {
            proof {
                let upto = transactions@.take(done + 1);
                assert(upto.drop_last() == transactions@.take(done as int));
                assert(upto.last() == transactions@[done as int]);
            }
            let ret = match &world_state {
                Some(state) => D::TransitionRule::transit(
                    &self.current_block,
                    &transactions[done],
                    state,
                ),
                None => D::TransitionRule::transit(
                    &self.current_block,
                    &transactions[done],
                    &self.current_world_state,
                ),
            };
            world_state = Some(ret.0);
            extras.push(ret.1);
            done = done + 1;
        }
        proof {
            assert(transactions@.take(done as int) == transactions@);
        }

        (world_state, extras)
    }

    /// Applies the transactions to the world state, builds the block that
    /// follows the current one, has it sealed, and moves on to both.
    pub fn mine(&mut self, transactions: &[D::Transaction])
        ensures
            mines::<D>(old(self)@, transactions@, final(self)@),
    {
        let (world_state, extras) = self.run(transactions);
        let hash = match &world_state {
            Some(state) => state.hash(),
            None => self.current_world_state.hash(),
        };

        self.current_block = self.current_block.next(transactions, extras.as_slice(), hash);
        D::Consensus::mine(&mut self.current_block);
        if let Some(state) = world_state {
            self.current_world_state = state;
        }
    }

    /// Applies the transactions to the world state and moves on to `block`
    /// and the new world state where `Block::is_next` recognises `block` as
    /// following the current one; else changes nothing.
    pub fn verify(&mut self, block: D::Block, transactions: &[D::Transaction]) -> (accepted: bool)
        ensures
            accepted == is_successor::<D>(old(self)@, block, transactions@),
            final(self)@ == verifies::<D>(old(self)@, block, transactions@),
    {
        let (world_state, extras) = self.run(transactions);
        let hash = match &world_state {
            Some(state) => state.hash(),
            None => self.current_world_state.hash(),
        };

        if self.current_block.is_next(&block, transactions, extras.as_slice(), hash) {
            self.current_block = block;
            if let Some(state) = world_state {
                self.current_world_state = state;
            }

            true
        } else {
            false
        }
    }
}

} // verus!
