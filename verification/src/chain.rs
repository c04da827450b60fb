//! A store of headers, each linked to its parent by hash, that keeps track
//! of one best head under the headers' order.

use std::collections::HashMap;
use std::hash::Hash;
use std::marker::PhantomData;
use vstd::prelude::*;
use vstd::std_specs::cmp::{PartialOrdIs, PartialOrdSpec};
use vstd::std_specs::hash::{builds_valid_hashers, obeys_key_model};

verus! {

broadcast use vstd::std_specs::hash::group_hash_axioms;

/// A header that knows its own hash and the hash of its parent.
///
/// Only a genesis header has no parent.
pub trait HeaderHash<H: Copy> {
    /// The parent's hash, `None` for a genesis header.
    spec fn spec_parent_hash(&self) -> Option<H>;

    /// The header's own hash.
    spec fn spec_header_hash(&self) -> H;

    /// Gives the hash of the parent.
    fn parent_hash(&self) -> (r: Option<H>)
        ensures
            r == self.spec_parent_hash(),
    ;

    /// Gives the hash of the header itself.
    fn header_hash(&self) -> (r: H)
        ensures
            r == self.spec_header_hash(),
    ;
}

/// A key/value store of headers, keyed by each header's own hash.
pub trait HeaderStore {
    type Hash: Copy;

    type Header: HeaderHash<Self::Hash> + Ord;

    /// Whether this store type behaves as the map `headers` says.
    spec fn obeys_store_model() -> bool;

    /// The headers held, by hash.
    spec fn headers(&self) -> Map<Self::Hash, Self::Header>;

    /// Looks up the header held under `hash`.
    fn fetch(&self, hash: Self::Hash) -> (r: Option<&Self::Header>)
        ensures
            Self::obeys_store_model() ==> r == (if self.headers().contains_key(hash) {
                Some(&self.headers()[hash])
            } else {
                None
            }),
    ;

    /// Stores `block` under its own hash, in the place of any header held
    /// there.
    fn put(&mut self, block: Self::Header)
        ensures
            Self::obeys_store_model() ==> final(self).headers() == old(self).headers().insert(
                block.spec_header_hash(),
                block,
            ),
    ;
}

/// A hash map is a header store, as far as its keys hash as a map needs.
impl<Ha: Copy + Eq + Hash, He: HeaderHash<Ha> + Ord> HeaderStore for HashMap<Ha, He> {
    type Hash = Ha;

    type Header = He;

    open spec fn obeys_store_model() -> bool {
        obeys_key_model::<Ha>() && builds_valid_hashers::<std::hash::RandomState>()
    }

    open spec fn headers(&self) -> Map<Ha, He> {
        self@
    }

    fn fetch(&self, hash: Ha) -> (r: Option<&He>) {
        self.get(&hash)
    }

    fn put(&mut self, header: He) {
        let hash = header.header_hash();
        self.insert(hash, header);
    }
}

/// Whether `a` ranks no higher than `b` in the headers' order.
pub open spec fn at_most<B: Ord>(a: B, b: B) -> bool {
    a.is_le(&b)
}

/// Whether `a` ranks strictly higher than `b` in the headers' order.
pub open spec fn outranks<B: Ord>(a: B, b: B) -> bool {
    a.is_gt(&b)
}

/// Whether the comparison operators of `B` are specified and form a total
/// order: any two headers are comparable, `at_most` is transitive, and
/// `outranks` is its strict complement.
pub open spec fn total_order<B: Ord>() -> bool {
    &&& B::obeys_partial_cmp_spec()
    &&& forall|a: B, b: B| #[trigger] at_most(a, b) || at_most(b, a)
    &&& forall|a: B, b: B, c: B| #[trigger]
        at_most(a, b) && #[trigger] at_most(b, c) ==> at_most(a, c)
    &&& forall|a: B, b: B| #[trigger] outranks(a, b) <==> !at_most(a, b)
}

/// Whether a store made by `Default` holds no header.
pub open spec fn starts_empty<S: HeaderStore + Default>() -> bool {
    forall|store: S| #[trigger]
        call_ensures(S::default, (), store) ==> store.headers() == Map::<S::Hash, S::Header>::empty()
}

/// The hashes met on the walk that starts at the header stored under `from`
/// and follows parent links, the start first. The walk ends after `len`
/// hashes, or at a header without a parent.
pub open spec fn walk<H: Copy, B: HeaderHash<H>>(headers: Map<H, B>, from: H, len: nat) -> Seq<H>
    decreases len,
{
    if len == 0 {
        Seq::empty()
    } else {
        let here = headers[from];
        match here.spec_parent_hash() {
            Some(parent) => seq![here.spec_header_hash()] + walk(headers, parent, (len - 1) as nat),
            None => seq![here.spec_header_hash()],
        }
    }
}

/// What a chain is: the headers it holds, by hash, and the hash of its best
/// head.
#[verifier::reject_recursive_types(H)]
pub struct ChainView<H, B> {
    pub headers: Map<H, B>,
    pub best_hash: H,
}

impl<H: Copy, B: HeaderHash<H> + Ord> ChainView<H, B> {
    /// The best head is held, every header is held under its own hash, and
    /// the parent of every held header is held too.
    pub open spec fn wf(self) -> bool {
        &&& self.headers.contains_key(self.best_hash)
        &&& forall|h: H|
            self.headers.contains_key(h) ==> (#[trigger] self.headers[h]).spec_header_hash() == h
        &&& forall|h: H|
            self.headers.contains_key(h) ==> match (#[trigger] self.headers[h]).spec_parent_hash() {
                Some(parent) => self.headers.contains_key(parent),
                None => true,
            }
    }

    /// The chain that holds `genesis` alone.
    pub open spec fn genesis(genesis: B) -> Self {
        ChainView {
            headers: Map::<H, B>::empty().insert(genesis.spec_header_hash(), genesis),
            best_hash: genesis.spec_header_hash(),
        }
    }

    /// The header of the best head.
    pub open spec fn best(self) -> B {
        self.headers[self.best_hash]
    }

    /// Whether `header` can be linked in: it names a parent, and the parent
    /// is held.
    pub open spec fn accepts(self, header: B) -> bool {
        match header.spec_parent_hash() {
            Some(parent) => self.headers.contains_key(parent),
            None => false,
        }
    }

    /// The chain after `header` was offered. An accepted header is stored
    /// under its own hash, and becomes the best head exactly if it outranks
    /// the best head so far. A rejected header changes nothing.
    pub open spec fn put(self, header: B) -> Self {
        if self.accepts(header) {
            ChainView {
                headers: self.headers.insert(header.spec_header_hash(), header),
                best_hash: if outranks(header, self.best()) {
                    header.spec_header_hash()
                } else {
                    self.best_hash
                },
            }
        } else {
            self
        }
    }

    /// The chain after the headers were offered one after the other.
    pub open spec fn put_all(self, headers: Seq<B>) -> Self
        decreases headers.len(),
    {
        if headers.len() == 0 {
            self
        } else {
            self.put_all(headers.drop_last()).put(headers.last())
        }
    }

    /// Whether `header` has the hash of the best head and ranks below the
    /// header held there: stored, it would take that header's place.
    pub open spec fn demotes(self, header: B) -> bool {
        header.spec_header_hash() == self.best_hash && !at_most(self.best(), header)
    }

    /// Whether no held header outranks the best head.
    pub open spec fn best_is_greatest(self) -> bool {
        forall|h: H|
            self.headers.contains_key(h) ==> at_most(#[trigger] self.headers[h], self.best())
    }

    /// The hashes from the best head back towards genesis, `len` at most.
    pub open spec fn last_hashes(self, len: nat) -> Seq<H> {
        walk(self.headers, self.best_hash, len)
    }

    /// A chain that holds its genesis alone is well formed, and its best
    /// head is the genesis, which no held header outranks.
    pub proof fn lemma_genesis(genesis: B)
        requires
            genesis.spec_parent_hash() is None,
        ensures
            Self::genesis(genesis).wf(),
            Self::genesis(genesis).best() == genesis,
            total_order::<B>() ==> Self::genesis(genesis).best_is_greatest(),
    {
        if total_order::<B>() {
            assert(at_most(genesis, genesis) || at_most(genesis, genesis));
        }
    }

    /// Offering a header keeps a chain well formed. A header that is not
    /// accepted, for want of a parent that the chain holds, leaves the best
    /// head and the held headers as they were.
    pub proof fn lemma_put_keeps_wf(self, header: B)
        requires
            self.wf(),
        ensures
            self.put(header).wf(),
            !self.accepts(header) ==> self.put(header) == self,
    {
        let after = self.put(header);
        if self.accepts(header) {
            assert forall|h: H| after.headers.contains_key(h) implies (
                #[trigger] after.headers[h]
            ).spec_header_hash() == h by {
                if h != header.spec_header_hash() {
                    assert(self.headers.contains_key(h));
                }
            }
            assert forall|h: H| after.headers.contains_key(h) implies match (
                #[trigger] after.headers[h]
            ).spec_parent_hash() {
                Some(parent) => after.headers.contains_key(parent),
                None => true,
            } by {
                if h != header.spec_header_hash() {
                    assert(self.headers.contains_key(h));
                }
            }
        }
    }

    /// Under a total order, and unless the header takes the place of the
    /// best head's header and ranks below it, the best head after a header
    /// was offered ranks no lower than the best head before, and no lower
    /// than the header if that was accepted. If no held header outranked the
    /// best head before, none does after.
    pub proof fn lemma_put_never_lowers_best(self, header: B)
        requires
            self.wf(),
            total_order::<B>(),
            !(self.accepts(header) && self.demotes(header)),
        ensures
            at_most(self.best(), self.put(header).best()),
            self.accepts(header) ==> at_most(header, self.put(header).best()),
            self.best_is_greatest() ==> self.put(header).best_is_greatest(),
    {
        let after = self.put(header);
        let best = self.best();
        assert(at_most(best, best) || at_most(best, best));
        assert(at_most(header, header) || at_most(header, header));
        if self.accepts(header) {
            assert(outranks(header, best) <==> !at_most(header, best));
            assert(at_most(header, best) || at_most(best, header));
            if outranks(header, best) {
                assert(after.best() == header);
            } else if header.spec_header_hash() == self.best_hash {
                assert(after.best() == header);
            } else {
                assert(after.best() == best);
            }
            if self.best_is_greatest() {
                assert forall|h: H| after.headers.contains_key(h) implies at_most(
                    #[trigger] after.headers[h],
                    after.best(),
                ) by {
                    if h != header.spec_header_hash() {
                        assert(self.headers.contains_key(h));
                        assert(at_most(self.headers[h], best) && at_most(best, after.best()));
                    }
                }
            }
        }
    }

    /// The headers offered by the first `n` of the calls are a prefix of
    /// those offered by all of them: the chain after `n` calls is the chain
    /// that the later calls start from.
    pub proof fn lemma_put_all_step(self, headers: Seq<B>, n: int)
        requires
            0 <= n < headers.len(),
        ensures
            self.put_all(headers.take(n + 1)) == self.put_all(headers.take(n)).put(headers[n]),
    {
        assert(headers.take(n + 1).drop_last() == headers.take(n));
    }

    /// Whether each of the headers, offered one after the other, is
    /// accepted, and none takes the place of the best head's header while
    /// ranking below it.
    pub open spec fn accepts_all(self, headers: Seq<B>) -> bool {
        forall|n: int|
            0 <= n < headers.len() ==> {
                let before = #[trigger] self.put_all(headers.take(n));
                before.accepts(headers[n]) && !before.demotes(headers[n])
            }
    }

    /// Under a total order, over any run of accepted headers of which none
    /// takes the place of the best head's header while ranking below it:
    /// the chain stays well formed, the best head never ranks lower after a
    /// later call than after an earlier one, and after each call it ranks no
    /// lower than any header accepted up to then.
    pub proof fn lemma_best_is_monotone(self, headers: Seq<B>, earlier: int, later: int)
        requires
            self.wf(),
            total_order::<B>(),
            self.accepts_all(headers),
            0 <= earlier <= later <= headers.len(),
        ensures
            self.put_all(headers.take(later)).wf(),
            at_most(
                self.put_all(headers.take(earlier)).best(),
                self.put_all(headers.take(later)).best(),
            ),
            earlier < later ==> at_most(headers[earlier], self.put_all(headers.take(later)).best()),
            self.put_all(headers.take(earlier)).best_is_greatest()
                ==> self.put_all(headers.take(later)).best_is_greatest(),
        decreases later - earlier,
    {
        let start = self.put_all(headers.take(earlier));
        if earlier == later {
            self.lemma_put_all_wf(headers.take(earlier));
            assert(at_most(start.best(), start.best()) || at_most(start.best(), start.best()));
        } else {
            self.lemma_best_is_monotone(headers, earlier, later - 1);
            let before = self.put_all(headers.take(later - 1));
            let after = self.put_all(headers.take(later));
            self.lemma_put_all_step(headers, later - 1);
            assert(before.accepts(headers[later - 1]) && !before.demotes(headers[later - 1]));
            before.lemma_put_keeps_wf(headers[later - 1]);
            before.lemma_put_never_lowers_best(headers[later - 1]);
            assert(at_most(start.best(), before.best()) && at_most(before.best(), after.best()));
            if earlier < later - 1 {
                assert(at_most(headers[earlier], before.best())
                    && at_most(before.best(), after.best()));
            }
        }
    }

    /// Offering headers one after the other keeps a chain well formed.
    pub proof fn lemma_put_all_wf(self, headers: Seq<B>)
        requires
            self.wf(),
        ensures
            self.put_all(headers).wf(),
        decreases headers.len(),
    {
        if headers.len() > 0 {
            self.lemma_put_all_wf(headers.drop_last());
            self.put_all(headers.drop_last()).lemma_put_keeps_wf(headers.last());
        }
    }

    /// Of the hashes from the best head backwards: there are `len` at most;
    /// the first, if any was asked for, is the hash of the best head's
    /// header; each is held, and is followed by the hash of its header's
    /// parent; and where fewer than `len` came, the last is the hash of a
    /// header without a parent.
    pub proof fn lemma_last_hashes(self, len: nat)
        requires
            self.wf(),
        ensures
            self.last_hashes(len).len() <= len,
            len > 0 ==> self.last_hashes(len).len() > 0
                && self.last_hashes(len)[0] == self.best().spec_header_hash(),
            forall|i: int|
                0 <= i < self.last_hashes(len).len()
                    ==> self.headers.contains_key(#[trigger] self.last_hashes(len)[i]),
            forall|i: int|
                0 <= i < self.last_hashes(len).len() - 1 ==> (
                    #[trigger] self.headers[self.last_hashes(len)[i]]
                ).spec_parent_hash() == Some(self.last_hashes(len)[i + 1]),
            0 < len && self.last_hashes(len).len() < len
                ==> self.headers[self.last_hashes(len).last()].spec_parent_hash() is None,
        decreases len,
    {
        if len > 0 {
            let here = self.best();
            let hashes = self.last_hashes(len);
            match here.spec_parent_hash() {
                Some(parent) => {
                    let rest = ChainView { headers: self.headers, best_hash: parent };
                    rest.lemma_last_hashes((len - 1) as nat);
                    let tail = rest.last_hashes((len - 1) as nat);
                    assert(hashes == seq![self.best_hash] + tail);
                    assert forall|i: int| 0 <= i < hashes.len() implies self.headers.contains_key(
                        #[trigger] hashes[i],
                    ) by {
                        if i > 0 {
                            assert(hashes[i] == tail[i - 1]);
                        }
                    }
                    assert forall|i: int| 0 <= i < hashes.len() - 1 implies (
                        #[trigger] self.headers[hashes[i]]
                    ).spec_parent_hash() == Some(hashes[i + 1]) by {
                        assert(hashes[i + 1] == tail[i]);
                        if i > 0 {
                            assert(hashes[i] == tail[i - 1]);
                        }
                    }
                    if hashes.len() < len {
                        assert(tail.len() < len - 1);
                        assert(hashes.last() == tail.last());
                    }
                },
                None => {
                    assert(hashes == seq![self.best_hash]);
                },
            }
        }
    }
}

/// A store of parent-linked headers with one best head, chosen by the
/// headers' order.
pub struct Chain<H, B, S> {
    best_hash: H,
    store: S,
    _block_marker: PhantomData<B>,
}

impl<H: Copy, B: HeaderHash<H> + Ord, S: HeaderStore<Hash = H, Header = B> + Default> View
    for Chain<H, B, S> {
    type V = ChainView<H, B>;

    closed spec fn view(&self) -> ChainView<H, B> {
        ChainView { headers: self.store.headers(), best_hash: self.best_hash }
    }
}

impl<H: Copy, B: HeaderHash<H> + Ord, S: HeaderStore<Hash = H, Header = B> + Default> Chain<H, B, S> {
    /// The store obeys its model and the chain's contents are well formed.
    pub open spec fn wf(&self) -> bool {
        S::obeys_store_model() && self@.wf()
    }

    /// Starts a chain at `genesis`, which becomes the best head.
    pub fn new(genesis: B) -> (chain: Self)
        requires
            genesis.spec_parent_hash() is None,
            S::obeys_store_model(),
            starts_empty::<S>(),
        ensures
            chain.wf(),
            chain@ == ChainView::<H, B>::genesis(genesis),
            chain@.best() == genesis,
    {
        let best_hash = genesis.header_hash();
        let mut store = S::default();
        store.put(genesis);

        Self { best_hash, store, _block_marker: PhantomData }
    }

    /// The header of the best head.
    pub fn best(&self) -> (header: &B)
        requires
            self.wf(),
        ensures
            *header == self@.best(),
    {
        let best_hash = self.best_hash;
        self.fetch(best_hash).unwrap()
    }

    /// Looks a header up by its hash.
    pub fn fetch(&self, hash: H) -> (found: Option<&B>)
        ensures
            S::obeys_store_model() ==> found == (if self@.headers.contains_key(hash) {
                Some(&self@.headers[hash])
            } else {
                None
            }),
    {
        self.store.fetch(hash)
    }

    /// Offers `block` to the chain. It is accepted exactly if it names a
    /// parent that the chain holds; a rejected block changes nothing. An
    /// accepted block is stored under its own hash, and becomes the best
    /// head exactly if it outranks the best head so far; of equals, the
    /// earlier stays.
    pub fn put(&mut self, block: B) -> (accepted: bool)
        requires
            old(self).wf(),
        ensures
            final(self).wf(),
            accepted == old(self)@.accepts(block),
            !accepted ==> final(self)@ == old(self)@,
            accepted ==> final(self)@.headers == old(self)@.headers.insert(
                block.spec_header_hash(),
                block,
            ),
            accepted ==> (final(self)@.best_hash == block.spec_header_hash()
                || final(self)@.best_hash == old(self)@.best_hash),
            B::obeys_partial_cmp_spec() ==> final(self)@ == old(self)@.put(block),
            total_order::<B>() && !(accepted && old(self)@.demotes(block)) ==> at_most(
                old(self)@.best(),
                final(self)@.best(),
            ),
    {
        proof {
            if total_order::<B>() && !(self@.accepts(block) && self@.demotes(block)) {
                self@.lemma_put_never_lowers_best(block);
            }
        }
        match block.parent_hash() {
            None => {
                return false;
            },
            Some(parent_hash) => {
                if self.fetch(parent_hash).is_none() {
                    return false;
                }
            },
        }

        let extern_hash = block.header_hash();
        let local_hash = self.best_hash;
        let best_hash = if &block > self.best() {
            extern_hash
        } else {
            local_hash
        };
        self.store.put(block);
        self.best_hash = best_hash;

        true
    }

    /// The hashes of the best head and of its ancestors, the best head
    /// first, `len` at most; fewer where genesis comes first.
    pub fn last_hashes(&self, len: usize) -> (hashes: Vec<H>)
        requires
            self.wf(),
        ensures
            hashes@ == self@.last_hashes(len as nat),
            hashes@.len() <= len,
            len > 0 ==> hashes@.len() > 0 && hashes@[0] == self@.best().spec_header_hash(),
    {
        proof {
            self@.lemma_last_hashes(len as nat);
        }
        let mut ret: Vec<H> = Vec::new();
        let mut current = self.best();

        while ret.len() < len
            invariant_except_break
                self.wf(),
                ret@.len() <= len,
                self@.headers.contains_key(current.spec_header_hash()),
                self@.headers[current.spec_header_hash()] == *current,
                self@.last_hashes(len as nat) == ret@ + walk(
                    self@.headers,
                    current.spec_header_hash(),
                    (len - ret@.len()) as nat,
                ),
            ensures
                ret@ == self@.last_hashes(len as nat),
            decreases len - ret@.len(),
        {
            let ghost before = ret@;
            ret.push(current.header_hash());

            match current.parent_hash() {
                Some(parent_hash) => {
                    current = self.fetch(parent_hash).unwrap();
                    let ghost rest = walk(self@.headers, parent_hash, (len - ret@.len()) as nat);
                    assert(ret@ + rest == before + (seq![ret@.last()] + rest));
                },
                None => {
                    assert(ret@ == before + seq![ret@.last()]);
                    break;
                },
            }
        }

        ret
    }
}

} // verus!
