use vstd::prelude::*;

use crate::error::MaemioError;

verus! {

/// The kinds of secondary index the engine recognises.
#[derive(Debug, Clone, Copy, PartialEq, Eq, Structural)]
pub enum IndexType {
    BTree,
    Hash,
}

/// Status codes for index operations.
#[derive(Debug, Clone, Copy, PartialEq, Eq, Structural)]
pub enum IndexStatus {
    Success,
    KeyNotFound,
    KeyExists,
    NodeFull,
    Error,
}

/// Largest supported key size, in bytes.
pub const MAX_KEY_SIZE: usize = 1024;

/// Minimum degree of a B-tree index node.
pub const MIN_DEGREE: usize = 4;

/// A key usable in secondary indexes.
#[derive(Debug, Clone, Eq, PartialOrd, Ord, Hash)]
pub enum IndexKey {
    Int(i64),
    String(String),
    Bytes(Vec<u8>),
}

/// Equality of index keys: same variant, same contents.
pub open spec fn key_eq(a: IndexKey, b: IndexKey) -> bool {
    match (a, b) {
        (IndexKey::Int(x), IndexKey::Int(y)) => x == y,
        (IndexKey::String(x), IndexKey::String(y)) => x@ == y@,
        (IndexKey::Bytes(x), IndexKey::Bytes(y)) => x@ == y@,
        _ => false,
    }
}

impl PartialEq for IndexKey {
    fn eq(&self, other: &IndexKey) -> (r: bool) {
        let r = match (self, other) {
            (IndexKey::Int(a), IndexKey::Int(b)) => *a == *b,
            (IndexKey::String(a), IndexKey::String(b)) => a.eq(b),
            (IndexKey::Bytes(a), IndexKey::Bytes(b)) => bytes_eq(a, b),
            _ => false,
        };
        proof {
            assert(r == key_eq(*self, *other));
        }
        r
    }
}

impl vstd::std_specs::cmp::PartialEqSpecImpl for IndexKey {
    open spec fn obeys_eq_spec() -> bool {
        true
    }

    open spec fn eq_spec(&self, other: &IndexKey) -> bool {
        key_eq(*self, *other)
    }
}

/// Whether two byte vectors hold the same bytes.
fn bytes_eq(a: &Vec<u8>, b: &Vec<u8>) -> (r: bool)
    ensures
        r == (a@ == b@),
{
    if a.len() != b.len() {
        return false;
    }
    let mut i: usize = 0;
    while i < a.len()
        invariant
            i <= a@.len(),
            a@.len() == b@.len(),
            forall|k: int| 0 <= k < i ==> a@[k] == b@[k],
        decreases a@.len() - i,
    {
        if a[i] != b[i] {
            return false;
        }
        i = i + 1;
    }
    proof {
        assert(a@ =~= b@);
    }
    true
}

/// Addition wrapped to 64 bits.
pub open spec fn add_wrap(a: u64, b: u64) -> u64 {
    ((a + b) % 0x1_0000_0000_0000_0000) as u64
}

/// The wrapped sum of the first `n` bytes.
pub open spec fn sum_bytes(s: Seq<u8>, n: int) -> u64
    decreases n,
{
    if n <= 0 {
        0u64
    } else {
        add_wrap(sum_bytes(s, n - 1), s[n - 1] as u64)
    }
}

/// An `i64` reinterpreted as 64 unsigned bits (two's complement).
pub open spec fn int_bits(i: i64) -> u64 {
    if i >= 0 {
        i as u64
    } else {
        (i + 0x1_0000_0000_0000_0000) as u64
    }
}

/// The 64-bit hash a key is bucketed by: the integer's bits, or the
/// wrapped sum of the key's bytes.
pub open spec fn key_hash(k: IndexKey) -> u64 {
    match k {
        IndexKey::Int(i) => int_bits(i),
        IndexKey::String(s) => sum_bytes(
            vstd::utf8::encode_utf8(s@),
            vstd::utf8::encode_utf8(s@).len() as int,
        ),
        IndexKey::Bytes(b) => sum_bytes(b@, b@.len() as int),
    }
}

/// The bucket a key falls in, among `nb` buckets.
pub open spec fn bucket_of(k: IndexKey, nb: usize) -> int {
    (key_hash(k) % (nb as u64)) as int
}

/// The index of the first entry whose key equals `k`, or -1.
pub open spec fn ikey_index(s: Seq<(IndexKey, u64)>, k: IndexKey) -> int
    decreases s.len(),
{
    if s.len() == 0 {
        -1
    } else if key_eq(s[0].0, k) {
        0
    } else {
        let r = ikey_index(s.drop_first(), k);
        if r < 0 {
            -1
        } else {
            r + 1
        }
    }
}

/// The record id stored under key `k`, if any.
pub open spec fn ikey_lookup(s: Seq<(IndexKey, u64)>, k: IndexKey) -> Option<u64> {
    let i = ikey_index(s, k);
    if i < 0 {
        None
    } else {
        Some(s[i].1)
    }
}

/// The entries after storing `record_id` under `k`: an existing entry
/// is replaced in place, or a new one appended.
pub open spec fn ikey_put(s: Seq<(IndexKey, u64)>, k: IndexKey, record_id: u64) -> Seq<
    (IndexKey, u64),
> {
    let i = ikey_index(s, k);
    if i < 0 {
        s.push((k, record_id))
    } else {
        s.update(i, (k, record_id))
    }
}

/// `ikey_index` finds the first occurrence of the key, and -1 exactly
/// when the key is absent.
pub proof fn lemma_ikey_index(s: Seq<(IndexKey, u64)>, k: IndexKey)
    ensures
        -1 <= ikey_index(s, k) < s.len(),
        ikey_index(s, k) >= 0 ==> key_eq(s[ikey_index(s, k)].0, k),
        ikey_index(s, k) >= 0 ==> forall|j: int|
            0 <= j < ikey_index(s, k) ==> !key_eq((#[trigger] s[j]).0, k),
        ikey_index(s, k) == -1 ==> forall|j: int|
            0 <= j < s.len() ==> !key_eq((#[trigger] s[j]).0, k),
    decreases s.len(),
{
    if s.len() > 0 && !key_eq(s[0].0, k) {
        lemma_ikey_index(s.drop_first(), k);
        let r = ikey_index(s.drop_first(), k);
        if r >= 0 {
            assert(s[r + 1] == s.drop_first()[r]);
            assert forall|j: int| 0 <= j < r + 1 implies !key_eq((#[trigger] s[j]).0, k) by {
                if j > 0 {
                    assert(s.drop_first()[j - 1] == s[j]);
                }
            }
        } else {
            assert forall|j: int| 0 <= j < s.len() implies !key_eq((#[trigger] s[j]).0, k) by {
                if j > 0 {
                    assert(s.drop_first()[j - 1] == s[j]);
                }
            }
        }
    }
}

/// Multi-version metadata of one index node: the last writer's
/// timestamp, the highest reader timestamp, optional key-range bounds
/// and the record ids held by the node.
#[derive(Debug)]
pub struct IndexNode {
    pub wts: u64,
    pub rts: u64,
    pub min_key: Option<IndexKey>,
    pub max_key: Option<IndexKey>,
    pub records: Vec<u64>,
}

impl IndexNode {
    /// A fresh node with zeroed timestamps.
    pub fn new() -> (r: IndexNode)
        ensures
            r.wts == 0,
            r.rts == 0,
            r.min_key is None,
            r.max_key is None,
            r.records@ == Seq::<u64>::empty(),
    {
        let r = IndexNode { wts: 0, rts: 0, min_key: None, max_key: None, records: Vec::new() };
        proof {
            assert(r.records@ =~= Seq::<u64>::empty());
        }
        r
    }

    /// Monotonic maximum on the node's read timestamp.
    pub fn update_rts(&mut self, ts: u64)
        ensures
            final(self).rts == if ts > old(self).rts {
                ts
            } else {
                old(self).rts
            },
            final(self).wts == old(self).wts,
            final(self).records@ == old(self).records@,
            final(self).min_key == old(self).min_key,
            final(self).max_key == old(self).max_key,
    {
        if ts > self.rts {
            self.rts = ts;
        }
    }
}

/// One hash bucket: its multi-version node metadata and its entries.
#[derive(Debug)]
pub struct Bucket {
    pub node: IndexNode,
    pub entries: Vec<(IndexKey, u64)>,
}

/// Whether two bucket states are identical in every observable field.
pub open spec fn same_bucket(a: Bucket, b: Bucket) -> bool {
    &&& a.entries@ == b.entries@
    &&& a.node.wts == b.node.wts
    &&& a.node.rts == b.node.rts
    &&& a.node.min_key == b.node.min_key
    &&& a.node.max_key == b.node.max_key
    &&& a.node.records@ == b.node.records@
}

/// A hash index over record keys, with per-bucket timestamp metadata
/// for the transactional validation contract.
#[derive(Debug)]
pub struct HashIndex {
    pub buckets: Vec<Bucket>,
    pub num_buckets: usize,
}

/// The result a lookup of `key` at timestamp `ts` observes: the
/// bucket's entry, unless the bucket was written after `ts`.
pub open spec fn get_spec(idx: HashIndex, key: IndexKey, ts: u64) -> Option<u64> {
    let b = idx.buckets@[bucket_of(key, idx.num_buckets)];
    if b.node.wts <= ts {
        ikey_lookup(b.entries@, key)
    } else {
        None
    }
}

impl HashIndex {
    /// Well-formedness: at least one bucket, counted correctly.
    pub open spec fn wf(self) -> bool {
        &&& self.num_buckets == self.buckets@.len()
        &&& self.num_buckets > 0
    }

    /// A hash index with the capacity rounded up to the next power of
    /// two buckets.
    pub fn new(capacity: usize) -> (r: HashIndex)
        requires
            capacity <= usize::MAX / 2 + 1,
        ensures
            r.wf(),
            r.num_buckets >= capacity,
            forall|i: int|
                0 <= i < r.num_buckets ==> {
                    &&& (#[trigger] r.buckets@[i]).node.wts == 0
                    &&& r.buckets@[i].node.rts == 0
                    &&& r.buckets@[i].entries@ == Seq::<(IndexKey, u64)>::empty()
                },
    {
        let mut num_buckets: usize = 1;
        while num_buckets < capacity
            invariant
                1 <= num_buckets,
                capacity <= usize::MAX / 2 + 1,
                num_buckets < capacity ==> num_buckets <= usize::MAX / 2,
            decreases usize::MAX - num_buckets,
        {
            num_buckets = num_buckets * 2;
        }
        let mut buckets: Vec<Bucket> = Vec::new();
        let mut i: usize = 0;
        while i < num_buckets
            invariant
                i <= num_buckets,
                buckets@.len() == i,
                forall|j: int|
                    0 <= j < i ==> {
                        &&& (#[trigger] buckets@[j]).node.wts == 0
                        &&& buckets@[j].node.rts == 0
                        &&& buckets@[j].entries@ == Seq::<(IndexKey, u64)>::empty()
                    },
            decreases num_buckets - i,
        {
            let node = IndexNode::new();
            let entries: Vec<(IndexKey, u64)> = Vec::new();
            proof {
                assert(entries@ =~= Seq::<(IndexKey, u64)>::empty());
            }
            buckets.push(Bucket { node, entries });
            i = i + 1;
        }
        HashIndex { buckets, num_buckets }
    }

    /// The bucket index a key falls in.
    fn get_bucket_index(&self, key: &IndexKey) -> (r: usize)
        requires
            self.wf(),
        ensures
            r == bucket_of(*key, self.num_buckets),
            r < self.num_buckets,
    {
        let h: u64 = match key {
            IndexKey::Int(i) => {
                #[verifier::truncate]
                let bits = *i as u64;
                proof {
                    assert(bits == int_bits(*i)) by (bit_vector)
                        requires
                            bits == *i as u64,
                    ;
                }
                bits
            },
            IndexKey::String(s) => {
                let bytes = s.as_str().as_bytes();
                sum_byte_slice(bytes)
            },
            IndexKey::Bytes(b) => sum_byte_slice(b.as_slice()),
        };
        (h % (self.num_buckets as u64)) as usize
    }

    /// Insert a key-record pair, stamping the touched bucket with the
    /// writer's timestamp.
    pub fn insert(&mut self, key: IndexKey, record_id: u64, ts: u64) -> (r: Result<
        (),
        MaemioError,
    >)
        requires
            old(self).wf(),
        ensures
            final(self).wf(),
            r is Ok,
            final(self).num_buckets == old(self).num_buckets,
            final(self).buckets@.len() == old(self).buckets@.len(),
            ({
                let bi = bucket_of(key, old(self).num_buckets);
                let b = old(self).buckets@[bi];
                let b2 = final(self).buckets@[bi];
                &&& forall|j: int|
                    0 <= j < old(self).buckets@.len() && j != bi ==> same_bucket(
                        #[trigger] final(self).buckets@[j],
                        old(self).buckets@[j],
                    )
                &&& b2.entries@ == ikey_put(b.entries@, key, record_id)
                &&& b2.node.wts == ts
                &&& b2.node.rts == b.node.rts
                &&& b2.node.min_key == b.node.min_key
                &&& b2.node.max_key == b.node.max_key
                &&& b2.node.records@ == b.node.records@
            }),
    {
        let bi = self.get_bucket_index(&key);
        let ghost pre = self.buckets@;
        let mut b = self.buckets.remove(bi);
        b.node.wts = ts;
        let ghost entries0 = b.entries@;
        match ikey_find(&b.entries, &key) {
            Some(i) => {
                b.entries[i] = (key, record_id);
                proof {
                    assert(b.entries@ =~= ikey_put(entries0, key, record_id));
                }
            },
            None => {
                b.entries.push((key, record_id));
                proof {
                    assert(b.entries@ =~= ikey_put(entries0, key, record_id));
                }
            },
        }
        self.buckets.insert(bi, b);
        proof {
            assert(self.buckets@ =~= pre.remove(bi as int).insert(bi as int, self.buckets@[bi as int]));
            assert(pre.remove(bi as int).insert(bi as int, self.buckets@[bi as int]) =~= pre.update(
                bi as int,
                self.buckets@[bi as int],
            ));
        }
        Ok(())
    }

    /// Remove a key, stamping the touched bucket; fails if the key is
    /// not present.
    pub fn remove(&mut self, key: &IndexKey, ts: u64) -> (r: Result<(), MaemioError>)
        requires
            old(self).wf(),
        ensures
            final(self).wf(),
            final(self).num_buckets == old(self).num_buckets,
            final(self).buckets@.len() == old(self).buckets@.len(),
            ({
                let bi = bucket_of(*key, old(self).num_buckets);
                let b = old(self).buckets@[bi];
                let b2 = final(self).buckets@[bi];
                let i = ikey_index(b.entries@, *key);
                if i >= 0 {
                    &&& r is Ok
                    &&& forall|j: int|
                        0 <= j < old(self).buckets@.len() && j != bi ==> same_bucket(
                            #[trigger] final(self).buckets@[j],
                            old(self).buckets@[j],
                        )
                    &&& b2.entries@ == b.entries@.remove(i)
                    &&& b2.node.wts == ts
                    &&& b2.node.rts == b.node.rts
                    &&& b2.node.min_key == b.node.min_key
                    &&& b2.node.max_key == b.node.max_key
                    &&& b2.node.records@ == b.node.records@
                } else {
                    &&& r == Result::<(), MaemioError>::Err(MaemioError::RecordNotFound(0))
                    &&& forall|j: int|
                        0 <= j < old(self).buckets@.len() ==> same_bucket(
                            #[trigger] final(self).buckets@[j],
                            old(self).buckets@[j],
                        )
                }
            }),
    {
        let bi = self.get_bucket_index(key);
        let ghost pre = self.buckets@;
        let mut b = self.buckets.remove(bi);
        let ghost entries0 = b.entries@;
        match ikey_find(&b.entries, key) {
            Some(i) => {
                b.entries.remove(i);
                b.node.wts = ts;
                self.buckets.insert(bi, b);
                proof {
                    assert(self.buckets@ =~= pre.remove(bi as int).insert(
                        bi as int,
                        self.buckets@[bi as int],
                    ));
                    assert(pre.remove(bi as int).insert(bi as int, self.buckets@[bi as int])
                        =~= pre.update(bi as int, self.buckets@[bi as int]));
                }
                Ok(())
            },
            None => {
                self.buckets.insert(bi, b);
                proof {
                    assert(self.buckets@ =~= pre.remove(bi as int).insert(
                        bi as int,
                        self.buckets@[bi as int],
                    ));
                    assert(pre.remove(bi as int).insert(bi as int, self.buckets@[bi as int])
                        =~= pre.update(bi as int, self.buckets@[bi as int]));
                }
                Err(MaemioError::RecordNotFound(0))
            },
        }
    }

    /// Look a key up at timestamp `ts`: the bucket's entry, unless the
    /// bucket carries a write newer than `ts`.
    pub fn get(&self, key: &IndexKey, ts: u64) -> (r: Result<Option<u64>, MaemioError>)
        requires
            self.wf(),
        ensures
            r == Result::<Option<u64>, MaemioError>::Ok(get_spec(*self, *key, ts)),
    {
        let bi = self.get_bucket_index(key);
        let b = &self.buckets[bi];
        if b.node.wts <= ts {
            match ikey_find(&b.entries, key) {
                Some(i) => Ok(Some(b.entries[i].1)),
                None => Ok(None),
            }
        } else {
            Ok(None)
        }
    }

    /// Range scans are not supported on a hash index.
    pub fn range_scan(&self, _start: &IndexKey, _end: &IndexKey, _ts: u64) -> (r: Result<
        Vec<u64>,
        MaemioError,
    >)
        ensures
            r matches Err(e) && e is System,
    {
        Err(MaemioError::System("Range scan not supported on hash index".to_owned()))
    }

    /// The bucket nodes a ranged operation must validate: the single
    /// bucket for a point lookup, every bucket otherwise.
    pub fn get_validation_nodes(&self, start: &IndexKey, end: &IndexKey) -> (r: Vec<usize>)
        requires
            self.wf(),
        ensures
            forall|i: int| 0 <= i < r@.len() ==> (#[trigger] r@[i]) < self.num_buckets,
            key_eq(*start, *end) ==> r@ == seq![bucket_of(*start, self.num_buckets) as usize],
            !key_eq(*start, *end) ==> r@.len() == self.num_buckets && forall|i: int|
                0 <= i < r@.len() ==> (#[trigger] r@[i]) == i,
    {
        if start == end {
            let bi = self.get_bucket_index(start);
            let mut out: Vec<usize> = Vec::new();
            out.push(bi);
            proof {
                assert(out@ =~= seq![bucket_of(*start, self.num_buckets) as usize]);
            }
            out
        } else {
            let mut out: Vec<usize> = Vec::new();
            let mut i: usize = 0;
            while i < self.num_buckets
                invariant
                    i <= self.num_buckets,
                    out@.len() == i,
                    forall|j: int| 0 <= j < i ==> (#[trigger] out@[j]) == j,
                decreases self.num_buckets - i,
            {
                out.push(i);
                i = i + 1;
            }
            out
        }
    }

    /// The bucket indices a ranged operation over `[start, end]` must
    /// validate.
    pub open spec fn validation_nodes_spec(self, start: IndexKey, end: IndexKey) -> Seq<usize> {
        if key_eq(start, end) {
            seq![bucket_of(start, self.num_buckets) as usize]
        } else {
            Seq::new(self.num_buckets as nat, |i: int| i as usize)
        }
    }

    /// Whether the bucket's node timestamps admit a transaction at `ts`.
    pub open spec fn bucket_admits(self, bi: usize, ts: u64) -> bool {
        let b = self.buckets@[bi as int];
        b.node.wts <= ts && b.node.rts <= ts
    }

    /// Whether every listed node admits a transaction at `ts`.
    pub open spec fn nodes_admit(self, nodes: Seq<usize>, ts: u64) -> bool {
        forall|i: int| 0 <= i < nodes.len() ==> self.bucket_admits(#[trigger] nodes[i], ts)
    }

    /// The transactional index contract: every touched node must carry
    /// a write and a read timestamp at or below the transaction's, else
    /// the access fails validation.
    pub fn validate_index_access(&self, start: &IndexKey, end: &IndexKey, ts: u64) -> (r: Result<
        Vec<usize>,
        MaemioError,
    >)
        requires
            self.wf(),
        ensures
            self.nodes_admit(self.validation_nodes_spec(*start, *end), ts) ==> (r matches Ok(v)
                && v@ == self.validation_nodes_spec(*start, *end)),
            !self.nodes_admit(self.validation_nodes_spec(*start, *end), ts) ==> r == Result::<
                Vec<usize>,
                MaemioError,
            >::Err(MaemioError::ValidationFailed),
    {
        let nodes = self.get_validation_nodes(start, end);
        let ghost expected = self.validation_nodes_spec(*start, *end);
        proof {
            if !key_eq(*start, *end) {
                assert(nodes@ =~= expected);
            }
        }
        let mut i: usize = 0;
        while i < nodes.len()
            invariant
                self.wf(),
                expected == nodes@,
                expected == self.validation_nodes_spec(*start, *end),
                i <= nodes@.len(),
                forall|j: int| 0 <= j < nodes@.len() ==> (#[trigger] nodes@[j]) < self.num_buckets,
                forall|j: int| 0 <= j < i ==> self.bucket_admits(#[trigger] nodes@[j], ts),
            decreases nodes@.len() - i,
        {
            let bi = nodes[i];
            let b = &self.buckets[bi];
            if b.node.wts > ts || b.node.rts > ts {
                proof {
                    assert(!self.bucket_admits(expected[i as int], ts));
                }
                return Err(MaemioError::ValidationFailed);
            }
            i = i + 1;
        }
        proof {
            assert forall|j: int|
                0 <= j < expected.len() implies self.bucket_admits(
                #[trigger] expected[j],
                ts,
            ) by {
                assert(self.bucket_admits(nodes@[j], ts));
            }
        }
        Ok(nodes)
    }

    /// After successful validation, advance the read timestamps of the
    /// touched nodes to the transaction's timestamp.
    pub fn update_timestamps(&mut self, nodes: &Vec<usize>, ts: u64)
        requires
            old(self).wf(),
            forall|i: int| 0 <= i < nodes@.len() ==> (#[trigger] nodes@[i]) < old(self).num_buckets,
        ensures
            final(self).wf(),
            final(self).num_buckets == old(self).num_buckets,
            final(self).buckets@.len() == old(self).buckets@.len(),
            forall|j: int|
                0 <= j < final(self).buckets@.len() ==> {
                    let pre = old(self).buckets@[j];
                    let post = (#[trigger] final(self).buckets@[j]);
                    &&& post.entries@ == pre.entries@
                    &&& post.node.wts == pre.node.wts
                    &&& post.node.min_key == pre.node.min_key
                    &&& post.node.max_key == pre.node.max_key
                    &&& post.node.records@ == pre.node.records@
                    &&& post.node.rts == if nodes@.contains(j as usize) {
                        if ts > pre.node.rts {
                            ts
                        } else {
                            pre.node.rts
                        }
                    } else {
                        pre.node.rts
                    }
                },
    {
        let mut i: usize = 0;
        while i < nodes.len()
            invariant
                i <= nodes@.len(),
                self.num_buckets == old(self).num_buckets,
                self.buckets@.len() == old(self).buckets@.len(),
                forall|k: int|
                    0 <= k < nodes@.len() ==> (#[trigger] nodes@[k]) < old(self).num_buckets,
                self.num_buckets == self.buckets@.len(),
                forall|j: int|
                    0 <= j < self.buckets@.len() ==> {
                        let pre = old(self).buckets@[j];
                        let post = (#[trigger] self.buckets@[j]);
                        &&& post.entries@ == pre.entries@
                        &&& post.node.wts == pre.node.wts
                        &&& post.node.min_key == pre.node.min_key
                        &&& post.node.max_key == pre.node.max_key
                        &&& post.node.records@ == pre.node.records@
                        &&& post.node.rts == if nodes@.take(i as int).contains(j as usize) {
                            if ts > pre.node.rts {
                                ts
                            } else {
                                pre.node.rts
                            }
                        } else {
                            pre.node.rts
                        }
                    },
            decreases nodes@.len() - i,
        {
            let bi = nodes[i];
            let ghost pre_buckets = self.buckets@;
            let mut b = self.buckets.remove(bi);
            b.node.update_rts(ts);
            self.buckets.insert(bi, b);
            proof {
                assert(self.buckets@ =~= pre_buckets.update(bi as int, self.buckets@[bi as int]));
                assert(nodes@.take(i as int + 1) =~= nodes@.take(i as int).push(
                    nodes@[i as int],
                ));
                assert forall|j: int|
                    0 <= j < self.buckets@.len() implies ((#[trigger] self.buckets@[j]).node.rts
                    == if nodes@.take(i as int + 1).contains(j as usize) {
                        if ts > old(self).buckets@[j].node.rts {
                            ts
                        } else {
                            old(self).buckets@[j].node.rts
                        }
                    } else {
                        old(self).buckets@[j].node.rts
                    }) by {
                    let taken = nodes@.take(i as int + 1);
                    assert(taken =~= nodes@.take(i as int).push(nodes@[i as int]));
                    if j == bi as int {
                        assert(taken.contains(j as usize)) by {
                            assert(taken[taken.len() - 1] == nodes@[i as int]);
                        }
                    } else {
                        assert(taken.contains(j as usize) == nodes@.take(i as int).contains(
                            j as usize,
                        )) by {
                            if taken.contains(j as usize) {
                                let w = choose|w: int|
                                    0 <= w < taken.len() && taken[w] == j as usize;
                                assert(w < taken.len() - 1);
                                assert(nodes@.take(i as int)[w] == j as usize);
                            } else if nodes@.take(i as int).contains(j as usize) {
                                let w = choose|w: int|
                                    0 <= w < nodes@.take(i as int).len() && nodes@.take(
                                        i as int,
                                    )[w] == j as usize;
                                assert(taken[w] == j as usize);
                            }
                        }
                    }
                }
            }
            i = i + 1;
        }
        proof {
            assert(nodes@.take(nodes@.len() as int) =~= nodes@);
        }
    }
}

/// The wrapped byte sum of a slice.
fn sum_byte_slice(b: &[u8]) -> (r: u64)
    ensures
        r == sum_bytes(b@, b@.len() as int),
{
    let mut total: u64 = 0;
    let mut i: usize = 0;
    while i < b.len()
        invariant
            i <= b@.len(),
            total == sum_bytes(b@, i as int),
        decreases b@.len() - i,
    {
        let x = b[i];
        let ghost pre = total;
        total = total.wrapping_add(x as u64);
        proof {
            assert(total == add_wrap(pre, x as u64));
        }
        i = i + 1;
    }
    total
}

/// Find the index of the entry whose key equals `key`, if any.
fn ikey_find(entries: &Vec<(IndexKey, u64)>, key: &IndexKey) -> (r: Option<usize>)
    ensures
        match r {
            Some(i) => i < entries@.len() && ikey_index(entries@, *key) == i,
            None => ikey_index(entries@, *key) == -1,
        },
{
    let mut i: usize = 0;
    while i < entries.len()
        invariant
            i <= entries@.len(),
            forall|k: int| 0 <= k < i ==> !key_eq((#[trigger] entries@[k]).0, *key),
        decreases entries@.len() - i,
    {
        if entries[i].0 == *key {
            proof {
                assert(key_eq(entries@[i as int].0, *key));
                lemma_ikey_index(entries@, *key);
                let r = ikey_index(entries@, *key);
                if r < i {
                    assert(!key_eq(entries@[r].0, *key));
                }
                if r > i {
                    assert(!key_eq(entries@[i as int].0, *key));
                }
            }
            return Some(i);
        }
        i = i + 1;
    }
    proof {
        lemma_ikey_index(entries@, *key);
        let r = ikey_index(entries@, *key);
        if r >= 0 {
            assert(!key_eq(entries@[r].0, *key));
        }
    }
    None
}

/// Two lookups of the same key at the same timestamp against the same
/// index state return identical results: a read is deterministic as
/// long as no mutation has been committed in between.
pub proof fn lemma_get_deterministic(
    idx: HashIndex,
    key: IndexKey,
    ts: u64,
    r1: Option<u64>,
    r2: Option<u64>,
)
    requires
        r1 == get_spec(idx, key, ts),
        r2 == get_spec(idx, key, ts),
    ensures
        r1 == r2,
{
}

} // verus!
