//! The block itself: one payload, one trust weight, the stored peer hashes,
//! and the cached aggregate digest.  The cache is deliberately lazy: only
//! [`Block::get_root_hashs`] advances `root_hashs`, and every other mutation
//! leaves it to the caller to recompute — with the one exception of
//! [`Block::update_others`], which recomputes after adopting a reported hash
//! set, as the contracts state.

use crate::hashing::append_all;
use crate::hashing::sha512_hex_exec;
use crate::hashing::spec_root_hash;
use crate::hashing::spec_self_hash;
use crate::patch::apply_changes;
use crate::patch::change_pairs;
use crate::patch::replace_first;
use crate::strings::u32_decimal;
use crate::vote::compute_winner;
use crate::vote::first_index;
use crate::vote::lemma_first_index;
use crate::vote::report_keys;
use crate::vote::spec_winner;
use vstd::pervasive::cloned;
use vstd::prelude::*;
use vstd::string::StringExecFns;

verus! {

/// A single node's state: its payload in canonical serialized form, its
/// trust weight, the peer-reported hashes it currently accepts, and the
/// cached aggregate digest.
pub struct Block {
    data: String,
    root_hashs: String,
    other_hashs: Vec<String>,
    trust: u32,
}

/// The mathematical content of a [`Block`].
pub ghost struct BlockView {
    pub data: Seq<char>,
    pub root_hashs: Seq<char>,
    pub other_hashs: Seq<Seq<char>>,
    pub trust: u32,
}

impl View for Block {
    type V = BlockView;

    closed spec fn view(&self) -> BlockView {
        BlockView {
            data: self.data@,
            root_hashs: self.root_hashs@,
            other_hashs: self.other_hashs.deep_view(),
            trust: self.trust,
        }
    }
}

impl Block {
    /// A fresh block holds its payload and trust weight, no peer hashes, and
    /// an empty root hash; the root hash carries meaning only after the
    /// first explicit recomputation.
    pub fn new(data: String, trust: u32) -> (b: Block)
        ensures
            b@.data == data@,
            b@.trust == trust,
            b@.other_hashs == Seq::<Seq<char>>::empty(),
            b@.root_hashs == Seq::<char>::empty(),
    {
        let b = Block { data, root_hashs: String::new(), other_hashs: Vec::new(), trust };
        proof {
            assert(b.other_hashs.deep_view() =~= Seq::<Seq<char>>::empty());
        }
        b
    }

    /// The digest of this block's own content: its trust weight in decimal
    /// followed by its canonical payload text, hashed.  Pure: the result is
    /// a function of the block's payload and trust weight alone.
    pub fn get_self_hash(&self) -> (r: String)
        ensures
            r@ == spec_self_hash(self@.trust, self@.data),
    {
        let mut input = u32_decimal(self.trust);
        input.append(self.data.as_str());
        sha512_hex_exec(input.as_str())
    }

    /// Recomputes the cached aggregate digest from the current payload,
    /// trust weight, and stored peer hashes.  This is the only operation
    /// that advances `root_hashs`.
    pub fn get_root_hashs(&mut self)
        ensures
            final (self)@.data == old(self)@.data,
            final (self)@.trust == old(self)@.trust,
            final (self)@.other_hashs == old(self)@.other_hashs,
            final (self)@.root_hashs == spec_root_hash(
                old(self)@.trust,
                old(self)@.data,
                old(self)@.other_hashs,
            ),
    {
        let mut input = self.get_self_hash();
        append_all(&mut input, &self.other_hashs);
        self.root_hashs = sha512_hex_exec(input.as_str());
    }

    /// Whether `req` equals the block's current (cached) aggregate digest.
    pub fn check_request(&mut self, req: String) -> (r: bool)
        ensures
            final (self)@ == old(self)@,
            r == (req@ == old(self)@.root_hashs),
    {
        req.eq(&self.root_hashs)
    }

    /// Reconciliation after a period of disconnection.  Every entry of `req`
    /// is one peer report: a candidate aggregate digest and the peer-hash
    /// set behind it.  The reported digests and the block's own current root
    /// hash are put to a vote — one vote per report, one for the block
    /// itself, ties resolved to the lexicographically smallest digest.  When
    /// some report carries the winning digest, the block adopts the hash set
    /// of the first such report and recomputes its root hash; when the
    /// block's own digest wins unreported, reconciliation is a no-op.
    pub fn update_others(&mut self, req: Vec<(String, Vec<String>)>)
        ensures
            final (self)@.data == old(self)@.data,
            final (self)@.trust == old(self)@.trust,
            ({
                let keys = report_keys(req@);
                let w = spec_winner(old(self)@.root_hashs, keys);
                if keys.contains(w) {
                    let adopted = req@[first_index(keys, w)].1.deep_view();
                    &&& final (self)@.other_hashs == adopted
                    &&& final (self)@.root_hashs == spec_root_hash(
                        old(self)@.trust,
                        old(self)@.data,
                        adopted,
                    )
                } else {
                    final (self)@ == old(self)@
                }
            }),
    {
        let ghost keys = report_keys(req@);
        let w = compute_winner(&self.root_hashs, &req);
        let n = req.len();
        let mut j: usize = 0;
        while j < n
            invariant
                j <= n,
                n == req@.len(),
                keys == report_keys(req@),
                keys.len() == n,
                *self == *old(self),
                w@ == spec_winner(old(self)@.root_hashs, keys),
                forall|t: int| 0 <= t < j ==> keys[t] != w@,
            decreases n - j,
        {
            proof {
                assert(keys[j as int] == req@[j as int].0@);
            }
            if req[j].0.eq(&w) {
                proof {
                    lemma_first_index(keys, w@, j as int);
                    assert(keys.contains(w@));
                }
                let adopted = req[j].1.clone();
                proof {
                    assert forall|i: int| 0 <= i < adopted@.len() implies adopted@[i]@
                        == req@[j as int].1@[i]@ by {
                        assert(cloned::<String>(req@[j as int].1@[i], adopted@[i]));
                    }
                    assert(adopted.deep_view() =~= req@[j as int].1.deep_view());
                }
                self.other_hashs = adopted;
                self.get_root_hashs();
                return ;
            }
            j = j + 1;
        }
        proof {
            assert(!keys.contains(w@)) by {
                if keys.contains(w@) {
                    let t = choose|t: int| 0 <= t < keys.len() && keys[t] == w@;
                    assert(keys[t] != w@);
                }
            }
        }
    }

    /// Applies a batch of verified point updates to the stored peer hashes,
    /// pair by pair in the given order: the first stored occurrence of each
    /// old hash, if any, is replaced in place by the new one, keeping the
    /// stored order; a pair whose old hash is absent is a silent no-op.  The
    /// cached root hash is deliberately not recomputed — callers that want
    /// it to reflect the patch invoke [`Block::get_root_hashs`] afterwards.
    pub fn change_set(&mut self, change: Vec<(String, String)>)
        ensures
            final (self)@.data == old(self)@.data,
            final (self)@.trust == old(self)@.trust,
            final (self)@.root_hashs == old(self)@.root_hashs,
            final (self)@.other_hashs == apply_changes(
                old(self)@.other_hashs,
                change_pairs(change@),
            ),
    {
        let ghost cp = change_pairs(change@);
        let n = change.len();
        let mut i: usize = 0;
        proof {
            assert(cp.skip(0) =~= cp);
        }
        while i < n
            invariant
                i <= n,
                n == change@.len(),
                cp == change_pairs(change@),
                cp.len() == n,
                self@.data == old(self)@.data,
                self@.trust == old(self)@.trust,
                self@.root_hashs == old(self)@.root_hashs,
                apply_changes(old(self)@.other_hashs, cp) == apply_changes(
                    self@.other_hashs,
                    cp.skip(i as int),
                ),
            decreases n - i,
        {
            proof {
                assert(cp.skip(i as int)[0] == cp[i as int]);
                assert(cp[i as int] == (change@[i as int].0@, change@[i as int].1@));
                assert(cp.skip(i as int).drop_first() =~= cp.skip(i as int + 1));
            }
            replace_first(&mut self.other_hashs, &change[i].0, change[i].1.clone());
            i = i + 1;
        }
        proof {
            assert(cp.skip(n as int) =~= Seq::<(Seq<char>, Seq<char>)>::empty());
        }
    }

    /// The block's cached aggregate digest, for peers to poll.
    pub fn current_root_hash(&self) -> (r: &String)
        ensures
            r@ == self@.root_hashs,
    {
        &self.root_hashs
    }

    /// The stored peer-reported hashes, in their current order.
    pub fn other_hashes(&self) -> (r: &Vec<String>)
        ensures
            r.deep_view() == self@.other_hashs,
    {
        &self.other_hashs
    }

    /// The block's trust weight.
    pub fn trust(&self) -> (t: u32)
        ensures
            t == self@.trust,
    {
        self.trust
    }

    /// The block's canonical payload text.
    pub fn data(&self) -> (d: &String)
        ensures
            d@ == self@.data,
    {
        &self.data
    }
}

/// Determinism of content hashing: any two blocks with the same trust weight
/// and the same payload have the same self hash, whatever else they hold and
/// however often it is computed.
pub proof fn lemma_self_hash_deterministic(a: BlockView, b: BlockView)
    requires
        a.trust == b.trust,
        a.data == b.data,
    ensures
        spec_self_hash(a.trust, a.data) == spec_self_hash(b.trust, b.data),
{
}

/// The aggregate digest does not read the cached root hash itself, so
/// recomputing it twice without any mutation in between yields the same
/// digest both times.
pub proof fn lemma_root_hash_stable(a: BlockView, b: BlockView)
    requires
        a.trust == b.trust,
        a.data == b.data,
        a.other_hashs == b.other_hashs,
    ensures
        spec_root_hash(a.trust, a.data, a.other_hashs) == spec_root_hash(
            b.trust,
            b.data,
            b.other_hashs,
        ),
{
}

} // verus!
