//! The registry of published processes: each key owns a descriptor, its
//! serialized bytes kept for remote reads, and the RDMA targets that pin them.

use vstd::prelude::*;
use crate::fast_descriptors::{enc_fast, fast_from_bytes, fast_len, lemma_fast_reads_back, FastDescriptor};

verus! {

/// How the parent's memory was captured.
#[derive(Clone, Copy, Debug, PartialEq, Eq, Structural)]
pub enum PrepareMode {
    /// Physical addresses snapshotted eagerly.
    Copy,
    /// Pages write-protected at the parent and materialized lazily.
    Cow,
}

/// A captured process.
#[derive(Debug)]
pub struct ShadowProcess {
    pub descriptor: FastDescriptor,
    pub mode: PrepareMode,
}

/// A published process with its serialized descriptor and the handles of the
/// RDMA targets that keep the exported bytes readable.
#[derive(Debug)]
pub struct ProcessBundler {
    pub process: ShadowProcess,
    pub serialized_buf: Vec<u8>,
    pub bound_dc_targets: Vec<u64>,
}

impl ProcessBundler {
    /// The descriptor is valid and the buffer holds exactly its encoding.
    pub open spec fn wf(&self) -> bool {
        &&& self.process.descriptor@.valid()
        &&& self.serialized_buf@ == enc_fast(self.process.descriptor@)
    }

    /// Bundles `process` with its serialized descriptor and the target handle.
    pub fn new(process: ShadowProcess, target: u64) -> (r: ProcessBundler)
        requires
            process.descriptor@.valid(),
            fast_len(process.descriptor@) <= usize::MAX,
        ensures
            r.wf(),
            r.process == process,
            r.bound_dc_targets@ == seq![target],
    {
        let len = process.descriptor.serialization_buf_len();
        let mut buf: Vec<u8> = vec![0u8; len];
        let ok = process.descriptor.serialize(&mut buf);
        assert(ok);
        assert(buf@ =~= enc_fast(process.descriptor@));
        let mut bound_targets: Vec<u64> = Vec::new();
        bound_targets.push(target);
        ProcessBundler { process, serialized_buf: buf, bound_dc_targets: bound_targets }
    }
}

/// The bundles by key, held in a hashbrown map.
#[verifier::external_body]
#[derive(Debug)]
pub struct BundleMap {
    inner: hashbrown::HashMap<usize, ProcessBundler>,
}

/// What the map holds.
pub uninterp spec fn bundles(m: BundleMap) -> Map<usize, ProcessBundler>;

/// Relies on hashbrown's `HashMap::new`: an empty map.
#[verifier::external_body]
fn bundle_map_new() -> (r: BundleMap)
    ensures
        forall|k: usize| !(#[trigger] bundles(r).contains_key(k)),
{
    BundleMap { inner: hashbrown::HashMap::new() }
}

/// Relies on hashbrown's `HashMap::contains_key`: whether the key is present.
#[verifier::external_body]
fn bundle_map_contains(m: &BundleMap, key: usize) -> (r: bool)
    ensures
        r == bundles(*m).contains_key(key),
{
    m.inner.contains_key(&key)
}

/// Relies on hashbrown's `HashMap::get`: the value under the key, if any.
#[verifier::external_body]
fn bundle_map_get(m: &BundleMap, key: usize) -> (r: Option<&ProcessBundler>)
    ensures
        match r {
            Some(b) => bundles(*m).contains_key(key) && *b == bundles(*m)[key],
            None => !bundles(*m).contains_key(key),
        },
{
    m.inner.get(&key)
}

/// Relies on hashbrown's `HashMap::insert`: the key then maps to the value,
/// other keys keep theirs.
#[verifier::external_body]
fn bundle_map_insert(m: &mut BundleMap, key: usize, v: ProcessBundler)
    ensures
        bundles(*final(m)) == bundles(*old(m)).insert(key, v),
{
    m.inner.insert(key, v);
}

/// Relies on hashbrown's `HashMap::remove`: the key is then absent, other keys
/// keep their values.
#[verifier::external_body]
fn bundle_map_remove(m: &mut BundleMap, key: usize)
    ensures
        bundles(*final(m)) == bundles(*old(m)).remove(key),
{
    m.inner.remove(&key);
}

/// The registry of published processes.
#[derive(Debug)]
pub struct ShadowProcessService {
    registered_processes: BundleMap,
}

impl ShadowProcessService {
    /// The bundles by key.
    pub closed spec fn view(&self) -> Map<usize, ProcessBundler> {
        bundles(self.registered_processes)
    }

    /// Every bundle holds a valid descriptor and its encoding.
    pub open spec fn wf(&self) -> bool {
        forall|k: usize| #[trigger] self@.contains_key(k) ==> self@[k].wf()
    }

    pub fn new() -> (r: ShadowProcessService)
        ensures
            r.wf(),
            r@ == Map::<usize, ProcessBundler>::empty(),
    {
        let r = ShadowProcessService { registered_processes: bundle_map_new() };
        assert(r@ =~= Map::<usize, ProcessBundler>::empty());
        r
    }

    /// The serialized descriptor published under `key`, kept for remote reads.
    pub fn query_descriptor_buf(&self, key: usize) -> (r: Option<&Vec<u8>>)
        requires
            self.wf(),
        ensures
            match r {
                Some(b) => {
                    &&& self@.contains_key(key)
                    &&& b@ == enc_fast(self@[key].process.descriptor@)
                    &&& fast_from_bytes(b@) == Some(self@[key].process.descriptor@)
                },
                None => !self@.contains_key(key),
            },
    {
        match bundle_map_get(&self.registered_processes, key) {
            Some(b) => {
                proof {
                    lemma_fast_reads_back(self@[key].process.descriptor@);
                }
                Some(&b.serialized_buf)
            },
            None => None,
        }
    }

    /// The descriptor published under `key`.
    pub fn query_descriptor(&self, key: usize) -> (r: Option<&FastDescriptor>)
        requires
            self.wf(),
        ensures
            match r {
                Some(d) => self@.contains_key(key) && d@ == self@[key].process.descriptor@ && d@.valid(),
                None => !self@.contains_key(key),
            },
    {
        match bundle_map_get(&self.registered_processes, key) {
            Some(b) => Some(&b.process.descriptor),
            None => None,
        }
    }

    fn add_myself(&mut self, key: usize, descriptor: FastDescriptor, target: u64, mode: PrepareMode) -> (r: Option<()>)
        requires
            old(self).wf(),
            descriptor@.valid(),
            fast_len(descriptor@) <= usize::MAX,
        ensures
            final(self).wf(),
            r is Some <==> !old(self)@.contains_key(key),
            final(self)@.dom() == keys_after(old(self)@.dom(), seq![RegistryOp::Prepare(key)]),
            r is None ==> final(self)@ == old(self)@,
            r is Some ==> {
                &&& final(self)@.dom() == old(self)@.dom().insert(key)
                &&& final(self)@[key].process.descriptor@ == descriptor@
                &&& final(self)@[key].process.mode == mode
                &&& final(self)@[key].bound_dc_targets@ == seq![target]
                &&& forall|k: usize| k != key && #[trigger] old(self)@.contains_key(k) ==> final(self)@[k] == old(self)@[k]
            },
    {
        if bundle_map_contains(&self.registered_processes, key) {
            proof {
                lemma_keys_after_one(old(self)@.dom(), RegistryOp::Prepare(key));
                assert(old(self)@.dom().insert(key) =~= old(self)@.dom());
            }
            return None;
        }
        let b = ProcessBundler::new(ShadowProcess { descriptor, mode }, target);
        bundle_map_insert(&mut self.registered_processes, key, b);
        assert(self@.dom() =~= old(self)@.dom().insert(key));
        proof {
            lemma_keys_after_one(old(self)@.dom(), RegistryOp::Prepare(key));
        }
        Some(())
    }

    /// Publishes `descriptor`, captured by eager copy, under `key` with the RDMA
    /// target `target`; `None`, changing nothing, where `key` is taken.
    pub fn add_myself_copy(&mut self, key: usize, descriptor: FastDescriptor, target: u64) -> (r: Option<()>)
        requires
            old(self).wf(),
            descriptor@.valid(),
            fast_len(descriptor@) <= usize::MAX,
        ensures
            final(self).wf(),
            r is Some <==> !old(self)@.contains_key(key),
            final(self)@.dom() == keys_after(old(self)@.dom(), seq![RegistryOp::Prepare(key)]),
            r is None ==> final(self)@ == old(self)@,
            r is Some ==> {
                &&& final(self)@.dom() == old(self)@.dom().insert(key)
                &&& final(self)@[key].process.descriptor@ == descriptor@
                &&& final(self)@[key].process.mode == PrepareMode::Copy
                &&& final(self)@[key].bound_dc_targets@ == seq![target]
                &&& forall|k: usize| k != key && #[trigger] old(self)@.contains_key(k) ==> final(self)@[k] == old(self)@[k]
            },
    {
        self.add_myself(key, descriptor, target, PrepareMode::Copy)
    }

    /// Publishes `descriptor`, captured copy-on-write, under `key` with the
    /// RDMA target `target`; `None`, changing nothing, where `key` is taken.
    pub fn add_myself_cow(&mut self, key: usize, descriptor: FastDescriptor, target: u64) -> (r: Option<()>)
        requires
            old(self).wf(),
            descriptor@.valid(),
            fast_len(descriptor@) <= usize::MAX,
        ensures
            final(self).wf(),
            r is Some <==> !old(self)@.contains_key(key),
            final(self)@.dom() == keys_after(old(self)@.dom(), seq![RegistryOp::Prepare(key)]),
            r is None ==> final(self)@ == old(self)@,
            r is Some ==> {
                &&& final(self)@.dom() == old(self)@.dom().insert(key)
                &&& final(self)@[key].process.descriptor@ == descriptor@
                &&& final(self)@[key].process.mode == PrepareMode::Cow
                &&& final(self)@[key].bound_dc_targets@ == seq![target]
                &&& forall|k: usize| k != key && #[trigger] old(self)@.contains_key(k) ==> final(self)@[k] == old(self)@[k]
            },
    {
        self.add_myself(key, descriptor, target, PrepareMode::Cow)
    }

    /// Removes what is published under `key`, if anything.
    pub fn unregister(&mut self, key: usize)
        requires
            old(self).wf(),
        ensures
            final(self).wf(),
            final(self)@ == old(self)@.remove(key),
            final(self)@.dom() == keys_after(old(self)@.dom(), seq![RegistryOp::Unregister(key)]),
    {
        bundle_map_remove(&mut self.registered_processes, key);
        proof {
            lemma_keys_after_one(old(self)@.dom(), RegistryOp::Unregister(key));
            assert(self@.dom() =~= old(self)@.dom().remove(key));
        }
    }
}

/// One call on the registry, as far as which keys are published goes.
pub enum RegistryOp {
    Prepare(usize),
    Unregister(usize),
}

/// The published keys after `ops`: a prepare adds its key (a taken key stays
/// as it was), an unregister removes its key.
pub open spec fn keys_after(keys: Set<usize>, ops: Seq<RegistryOp>) -> Set<usize>
    decreases ops.len(),
{
    if ops.len() == 0 {
        keys
    } else {
        let k0 = keys_after(keys, ops.drop_last());
        match ops.last() {
            RegistryOp::Prepare(k) => k0.insert(k),
            RegistryOp::Unregister(k) => k0.remove(k),
        }
    }
}

/// One call: a prepare adds its key, an unregister removes its key.
pub proof fn lemma_keys_after_one(keys: Set<usize>, op: RegistryOp)
    ensures
        keys_after(keys, seq![op]) == match op {
            RegistryOp::Prepare(k) => keys.insert(k),
            RegistryOp::Unregister(k) => keys.remove(k),
        },
{
    let s = seq![op];
    assert(s.len() == 1);
    assert(s.drop_last() =~= Seq::<RegistryOp>::empty());
    assert(keys_after(keys, s.drop_last()) == keys);
    assert(s.last() == op);
}

/// A key that starts unpublished is queryable after a run of calls exactly
/// when some prepare of it came with no unregister of it afterwards.
pub proof fn lemma_query_after_prepare(keys: Set<usize>, key: usize, ops: Seq<RegistryOp>)
    requires
        !keys.contains(key),
    ensures
        keys_after(keys, ops).contains(key) <==> exists|i: int| 0 <= i < ops.len() && #[trigger] ops[i] == RegistryOp::Prepare(key)
            && forall|j: int| i < j < ops.len() ==> #[trigger] ops[j] != RegistryOp::Unregister(key),
    decreases ops.len(),
{
    if ops.len() > 0 {
        let p = ops.drop_last();
        let n = ops.len() - 1;
        lemma_query_after_prepare(keys, key, p);
        if keys_after(keys, ops).contains(key) {
            if ops.last() != RegistryOp::Prepare(key) {
                assert(keys_after(keys, p).contains(key));
                let i = choose|i: int| 0 <= i < p.len() && #[trigger] p[i] == RegistryOp::Prepare(key)
                    && forall|j: int| i < j < p.len() ==> #[trigger] p[j] != RegistryOp::Unregister(key);
                assert(ops[i] == p[i]);
                assert forall|j: int| i < j < ops.len() implies #[trigger] ops[j] != RegistryOp::Unregister(key) by {
                    if j < n {
                        assert(ops[j] == p[j]);
                    }
                }
            } else {
                assert(ops[n] == RegistryOp::Prepare(key));
            }
        } else {
            if exists|i: int| 0 <= i < ops.len() && #[trigger] ops[i] == RegistryOp::Prepare(key)
                && forall|j: int| i < j < ops.len() ==> #[trigger] ops[j] != RegistryOp::Unregister(key) {
                let i = choose|i: int| 0 <= i < ops.len() && #[trigger] ops[i] == RegistryOp::Prepare(key)
                    && forall|j: int| i < j < ops.len() ==> #[trigger] ops[j] != RegistryOp::Unregister(key);
                assert(i != n);
                assert(ops[n] != RegistryOp::Unregister(key));
                assert(p[i] == ops[i]);
                assert forall|j: int| i < j < p.len() implies #[trigger] p[j] != RegistryOp::Unregister(key) by {
                    assert(ops[j] == p[j]);
                }
                assert(keys_after(keys, p).contains(key));
            }
        }
    }
}

} // verus!
