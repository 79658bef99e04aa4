//! The owner of the raw-byte cache and of the registry of stages.

use super::processor::{process_cache_spec, CacheModel, ResProcesser, Rule};
use super::value::{opt_view, ResModel, ResValue, BYTES_TYPE};
use std::collections::HashMap;
use std::rc::Rc;
use vstd::hash_map::StringHashMap;
use vstd::prelude::*;

verus! {

/// A modification time: nanoseconds since the Unix epoch.
pub type Timestamp = u128;

/// What the raw-byte cache holds: for each resolved path the bytes last
/// read and the modification time they were read at.
pub type RawModel = Map<Seq<char>, (Seq<u8>, Timestamp)>;

/// A registered stage, as plain data.
pub struct ProcModel {
    pub proc_type: u64,
    pub out_type: u64,
    pub rule: Rule,
    pub cache: CacheModel,
}

/// Every stage is registered under the type of value it produces.
pub open spec fn registry_wf(procs: RegistryModel) -> bool {
    forall|k: u64| procs.contains_key(k) ==> (#[trigger] procs[k]).out_type == k
}

/// The type of value at the end of a chain: that of the last stage, or
/// that of the input where there is no stage.
pub open spec fn chain_out_type(stages: Seq<(u64, u64)>, input_type: u64) -> u64 {
    if stages.len() == 0 {
        input_type
    } else {
        stages.last().1
    }
}

/// The registry: for each output type the stage registered under it.
pub type RegistryModel = Map<u64, ProcModel>;

/// What is left to do for a file whose modification time is known.
pub enum LoadStep {
    /// The cache holds bytes at least as new as the file: these.
    Cached(Rc<Vec<u8>>),
    /// The cache holds nothing for the file, or older bytes: the file has
    /// to be read.
    Read,
}

/// The raw-byte cache and the answer after a load of `path`, where `read`
/// is what the storage gave: nothing for a file that cannot be opened or
/// read, else its content and modification time.
///
/// The answer is the bytes, whether they were read anew, and the path. A
/// cached entry at least as new as the file is the answer as it is, not
/// read anew. Otherwise the content, whatever it is, replaces the entry
/// and is the answer, read anew: what was derived from earlier bytes of
/// the path is overdue.
pub open spec fn load_file_spec(
    raw: RawModel,
    path: Seq<char>,
    read: Option<(Seq<u8>, Timestamp)>,
) -> (RawModel, Option<(Seq<u8>, bool, Seq<char>)>) {
    match read {
        None => (raw, None),
        Some((data, modified)) => if raw.contains_key(path) && raw[path].1 >= modified {
            (raw, Some((raw[path].0, false, path)))
        } else {
            (raw.insert(path, (data, modified)), Some((data, true, path)))
        },
    }
}

/// After a load that gave bytes, a load of the same path whose file has
/// the same modification time gives the same bytes, says that they were
/// not read anew, and leaves the cache as it is. What the storage holds as
/// content plays no part.
pub proof fn lemma_reload_unmodified(
    raw: RawModel,
    path: Seq<char>,
    data: Seq<u8>,
    modified: Timestamp,
    again: Seq<u8>,
)
    ensures
        ({
            let (cached, first) = load_file_spec(raw, path, Some((data, modified)));
            first matches Some(l) ==> load_file_spec(cached, path, Some((again, modified))) == (
                cached,
                Some((l.0, false, path)),
            )
        }),
{
}

/// Where the cache holds bytes for a path and the file now has a newer
/// modification time, a load gives the new content, says that it was read
/// anew, and leaves the new content and time in the cache.
pub proof fn lemma_reload_modified(
    raw: RawModel,
    path: Seq<char>,
    data: Seq<u8>,
    modified: Timestamp,
)
    requires
        raw.contains_key(path),
        raw[path].1 < modified,
    ensures
        ({
            let (cached, out) = load_file_spec(raw, path, Some((data, modified)));
            &&& out == Some((data, true, path))
            &&& cached[path] == (data, modified)
        }),
{
}

/// The first load of a path reads the file: it gives the content, says
/// that it was read anew, and leaves content and time in the cache.
pub proof fn lemma_first_load_reads(
    raw: RawModel,
    path: Seq<char>,
    data: Seq<u8>,
    modified: Timestamp,
)
    requires
        !raw.contains_key(path),
    ensures
        ({
            let (cached, out) = load_file_spec(raw, path, Some((data, modified)));
            &&& out == Some((data, true, path))
            &&& cached[path] == (data, modified)
        }),
{
}

/// The registry and the answer after one stage is asked for `path`.
///
/// Nothing is registered under `out_type`, or what is registered is not of
/// type `proc_type`: no answer, nothing changes. Otherwise the stage runs
/// through its cache.
pub open spec fn loading_spec(
    procs: RegistryModel,
    proc_type: u64,
    out_type: u64,
    path: Seq<char>,
    input: ResModel,
    cache_overdue: bool,
) -> (RegistryModel, Option<ResModel>) {
    if procs.contains_key(out_type) && procs[out_type].proc_type == proc_type {
        let p = procs[out_type];
        let (cache, out) = process_cache_spec(p.rule, p.cache, path, input, cache_overdue);
        (
            procs.insert(
                out_type,
                ProcModel { proc_type: p.proc_type, out_type: p.out_type, rule: p.rule, cache },
            ),
            out,
        )
    } else {
        (procs, None)
    }
}

/// The registry and the answer after the stages of `stages`, each a stage
/// type and its output type, ran in order from `input`. The output of one
/// stage is the input of the next; the first stage without an answer ends
/// the chain without one.
pub open spec fn chain_spec(
    procs: RegistryModel,
    stages: Seq<(u64, u64)>,
    path: Seq<char>,
    input: ResModel,
    cache_overdue: bool,
) -> (RegistryModel, Option<ResModel>)
    decreases stages.len(),
{
    if stages.len() == 0 {
        (procs, Some(input))
    } else {
        let (next, out) = loading_spec(
            procs,
            stages[0].0,
            stages[0].1,
            path,
            input,
            cache_overdue,
        );
        match out {
            Some(v) => chain_spec(next, stages.drop_first(), path, v, cache_overdue),
            None => (next, None),
        }
    }
}

/// Owns the raw bytes of the files loaded so far and the stages that
/// process them. `P` is the type of the stages; where stages of several
/// kinds work together, it is a sum of them.
pub struct ResourceMgr<P: ResProcesser> {
    root: String,
    cache: StringHashMap<(Rc<Vec<u8>>, Timestamp)>,
    process: HashMap<u64, Box<P>>,
}

impl<P: ResProcesser> ResourceMgr<P> {
    /// The directory that relative paths are resolved against.
    pub closed spec fn root_path(&self) -> Seq<char> {
        self.root@
    }

    /// The raw-byte cache.
    pub closed spec fn raw(&self) -> RawModel {
        self.cache@.map_values(|e: (Rc<Vec<u8>>, Timestamp)| (e.0@, e.1))
    }

    /// The registry of stages.
    pub closed spec fn procs(&self) -> RegistryModel {
        Map::new(
            |k: u64| self.process@.contains_key(k),
            |k: u64|
                ProcModel {
                    proc_type: self.process@[k].proc_type(),
                    out_type: self.process@[k].out_type(),
                    rule: self.process@[k].rule(),
                    cache: self.process@[k].cache(),
                },
        )
    }

    /// What holds of a manager between any two calls: every stage is
    /// registered under the type of value it produces.
    pub open spec fn wf(&self) -> bool {
        registry_wf(self.procs())
    }

    /// A manager with nothing cached and nothing registered.
    pub fn new(root: String) -> (r: ResourceMgr<P>)
        ensures
            r.wf(),
            r.root_path() == root@,
            r.raw() == RawModel::empty(),
            r.procs() == RegistryModel::empty(),
    {
        let r = ResourceMgr { root, cache: StringHashMap::new(), process: HashMap::new() };
        assert(r.raw() =~= RawModel::empty());
        assert(r.procs() =~= RegistryModel::empty());
        r
    }

    /// The directory that relative paths are resolved against.
    pub fn root(&self) -> (r: &String)
        ensures
            r@ == self.root_path(),
    {
        &self.root
    }

    /// The cached bytes and time for `path`, if there are any.
    pub fn get_cache(&self, path: &String) -> (r: Option<&(Rc<Vec<u8>>, Timestamp)>)
        ensures
            match r {
                Some(e) => self.raw().get(path@) == Some((e.0@, e.1)),
                None => !self.raw().contains_key(path@),
            },
    {
        self.cache.get(path.as_str())
    }

    /// Caches `data` as the bytes of `path`, read at `time`.
    pub fn add_cache(&mut self, path: String, data: Rc<Vec<u8>>, time: Timestamp)
        ensures
            final(self).raw() == old(self).raw().insert(path@, (data@, time)),
            final(self).procs() == old(self).procs(),
            final(self).root_path() == old(self).root_path(),
    {
        self.cache.insert(path, (data, time));
        assert(self.raw() =~= old(self).raw().insert(path@, (data@, time)));
    }

    /// Forgets all raw bytes.
    pub fn clear_cache(&mut self)
        ensures
            final(self).raw() == RawModel::empty(),
            final(self).procs() == old(self).procs(),
            final(self).root_path() == old(self).root_path(),
    {
        self.cache.clear();
        assert(self.raw() =~= RawModel::empty());
    }

    /// Forgets the raw bytes of `path` and hands them out.
    pub fn rm_cache(&mut self, path: &String) -> (r: Option<(Rc<Vec<u8>>, Timestamp)>)
        ensures
            match r {
                Some(e) => old(self).raw().get(path@) == Some((e.0@, e.1)),
                None => !old(self).raw().contains_key(path@),
            },
            final(self).raw() == old(self).raw().remove(path@),
            final(self).procs() == old(self).procs(),
            final(self).root_path() == old(self).root_path(),
    {
        let r = match self.cache.get(path.as_str()) {
            Some(e) => Some((e.0.clone(), e.1)),
            None => None,
        };
        self.cache.remove(path.as_str());
        assert(self.raw() =~= old(self).raw().remove(path@));
        r
    }

    /// Decides, for a file that was opened and whose modification time is
    /// `modified`, whether its cached bytes serve or it has to be read.
    pub fn check_cache(&self, path: &String, modified: Timestamp) -> (r: LoadStep)
        ensures
            match r {
                LoadStep::Cached(d) => self.raw().contains_key(path@) && self.raw()[path@].1
                    >= modified && d@ == self.raw()[path@].0,
                LoadStep::Read => !(self.raw().contains_key(path@) && self.raw()[path@].1
                    >= modified),
            },
    {
        match self.get_cache(path) {
            Some(e) => {
                if e.1 >= modified {
                    LoadStep::Cached(e.0.clone())
                } else {
                    LoadStep::Read
                }
            },
            None => LoadStep::Read,
        }
    }

    /// Takes in the content `data` that was read for `path` at the
    /// modification time `modified`: it replaces what the cache held for
    /// the path. The answer is the content, that it was read anew, and the
    /// path.
    pub fn store_read(&mut self, path: String, data: Vec<u8>, modified: Timestamp) -> (r: (
        Rc<Vec<u8>>,
        bool,
        String,
    ))
        ensures
            r.0@ == data@,
            r.1,
            r.2@ == path@,
            final(self).raw() == old(self).raw().insert(path@, (data@, modified)),
            final(self).procs() == old(self).procs(),
            final(self).root_path() == old(self).root_path(),
    {
        let d = Rc::new(data);
        self.add_cache(path.clone(), d.clone(), modified);
        (d, true, path)
    }

    /// Loads `path`, where `read` is what the storage gave for it: nothing
    /// for a file that cannot be opened or read, else its content and
    /// modification time.
    pub fn load_file(&mut self, path: String, read: Option<(Vec<u8>, Timestamp)>) -> (r: Option<
        (Rc<Vec<u8>>, bool, String),
    >)
        ensures
            (final(self).raw(), loaded_view(r)) == load_file_spec(
                old(self).raw(),
                path@,
                read_view(read),
            ),
            final(self).procs() == old(self).procs(),
            final(self).root_path() == old(self).root_path(),
    {
        match read {
            None => None,
            Some((data, modified)) => {
                match self.check_cache(&path, modified) {
                    LoadStep::Cached(d) => Some((d, false, path)),
                    LoadStep::Read => Some(self.store_read(path, data, modified)),
                }
            },
        }
    }

    /// Registers `p` under the type of value it produces. A stage that was
    /// registered under that type before is replaced and handed back.
    pub fn add_process(&mut self, p: Box<P>) -> (r: Option<Box<P>>)
        requires
            old(self).wf(),
        ensures
            final(self).wf(),
            final(self).procs() == old(self).procs().insert(
                p.out_type(),
                ProcModel {
                    proc_type: p.proc_type(),
                    out_type: p.out_type(),
                    rule: p.rule(),
                    cache: p.cache(),
                },
            ),
            match r {
                Some(q) => old(self).procs().contains_key(p.out_type()) && old(
                    self,
                ).procs()[p.out_type()] == (ProcModel {
                    proc_type: q.proc_type(),
                    out_type: q.out_type(),
                    rule: q.rule(),
                    cache: q.cache(),
                }),
                None => !old(self).procs().contains_key(p.out_type()),
            },
            final(self).raw() == old(self).raw(),
            final(self).root_path() == old(self).root_path(),
    {
        let k = p.out_key();
        let r = self.process.insert(k, p);
        assert(self.procs() =~= old(self).procs().insert(
            p.out_type(),
            ProcModel {
                proc_type: p.proc_type(),
                out_type: p.out_type(),
                rule: p.rule(),
                cache: p.cache(),
            },
        ));
        r
    }

    /// Asks the stage of type `proc_type`, registered under `out_type`, for
    /// its output for `path` from the input `i`.
    pub fn loading(
        &mut self,
        proc_type: u64,
        out_type: u64,
        i: ResValue,
        path: &String,
        cache_overdue: bool,
    ) -> (r: Option<ResValue>)
        requires
            old(self).wf(),
        ensures
            final(self).wf(),
            (final(self).procs(), opt_view(r)) == loading_spec(
                old(self).procs(),
                proc_type,
                out_type,
                path@,
                i@,
                cache_overdue,
            ),
            r matches Some(v) ==> v@.type_key() == out_type,
            final(self).raw() == old(self).raw(),
            final(self).root_path() == old(self).root_path(),
    {
        match self.process.remove(&out_type) {
            None => {
                assert(self.procs() =~= old(self).procs());
                None
            },
            Some(mut p) => {
                let r = if p.type_key() == proc_type {
                    p.process_cache(path, i, cache_overdue)
                } else {
                    None
                };
                self.process.insert(out_type, p);
                assert(self.procs() =~= loading_spec(
                    old(self).procs(),
                    proc_type,
                    out_type,
                    path@,
                    i@,
                    cache_overdue,
                ).0);
                r
            },
        }
    }

    /// Empties the cache of the stage of type `proc_type`, registered under
    /// `out_type`. Tells whether there is such a stage.
    pub fn clear_cache_by(&mut self, proc_type: u64, out_type: u64) -> (r: bool)
        requires
            old(self).wf(),
        ensures
            final(self).wf(),
            r == (old(self).procs().contains_key(out_type) && old(self).procs()[out_type].proc_type
                == proc_type),
            final(self).procs() == if r {
                let p = old(self).procs()[out_type];
                old(self).procs().insert(
                    out_type,
                    ProcModel {
                        proc_type: p.proc_type,
                        out_type: p.out_type,
                        rule: p.rule,
                        cache: CacheModel::empty(),
                    },
                )
            } else {
                old(self).procs()
            },
            final(self).raw() == old(self).raw(),
            final(self).root_path() == old(self).root_path(),
    {
        match self.process.remove(&out_type) {
            None => {
                assert(self.procs() =~= old(self).procs());
                false
            },
            Some(mut p) => {
                let r = p.type_key() == proc_type;
                if r {
                    p.clear_cache();
                }
                self.process.insert(out_type, p);
                if r {
                    let ghost q = old(self).procs()[out_type];
                    assert(self.procs() =~= old(self).procs().insert(
                        out_type,
                        ProcModel {
                            proc_type: q.proc_type,
                            out_type: q.out_type,
                            rule: q.rule,
                            cache: CacheModel::empty(),
                        },
                    ));
                } else {
                    assert(self.procs() =~= old(self).procs());
                }
                r
            },
        }
    }

    /// Forgets what the stage of type `proc_type`, registered under
    /// `out_type`, has cached for `path`, and hands it out.
    pub fn rm_cache_by(&mut self, proc_type: u64, out_type: u64, path: &String) -> (r: Option<
        ResValue,
    >)
        requires
            old(self).wf(),
        ensures
            final(self).wf(),
            opt_view(r) == if old(self).procs().contains_key(out_type) && old(
                self,
            ).procs()[out_type].proc_type == proc_type {
                old(self).procs()[out_type].cache.get(path@)
            } else {
                None
            },
            r matches Some(v) ==> v@.type_key() == out_type,
            final(self).procs() == if old(self).procs().contains_key(out_type) && old(
                self,
            ).procs()[out_type].proc_type == proc_type {
                let p = old(self).procs()[out_type];
                old(self).procs().insert(
                    out_type,
                    ProcModel {
                        proc_type: p.proc_type,
                        out_type: p.out_type,
                        rule: p.rule,
                        cache: p.cache.remove(path@),
                    },
                )
            } else {
                old(self).procs()
            },
            final(self).raw() == old(self).raw(),
            final(self).root_path() == old(self).root_path(),
    {
        match self.process.remove(&out_type) {
            None => {
                assert(self.procs() =~= old(self).procs());
                None
            },
            Some(mut p) => {
                let hit = p.type_key() == proc_type;
                let r = if hit {
                    p.rm_cache(path)
                } else {
                    None
                };
                self.process.insert(out_type, p);
                if hit {
                    let ghost q = old(self).procs()[out_type];
                    assert(self.procs() =~= old(self).procs().insert(
                        out_type,
                        ProcModel {
                            proc_type: q.proc_type,
                            out_type: q.out_type,
                            rule: q.rule,
                            cache: q.cache.remove(path@),
                        },
                    ));
                } else {
                    assert(self.procs() =~= old(self).procs());
                }
                r
            },
        }
    }

    /// Runs the stages of `stages`, each a stage type and its output type,
    /// in order from `value`, all for `path` and with the same
    /// `cache_overdue`. The first stage without an answer ends the chain.
    pub fn run_chain(
        &mut self,
        value: ResValue,
        path: &String,
        cache_overdue: bool,
        stages: &Vec<(u64, u64)>,
    ) -> (r: Option<ResValue>)
        requires
            old(self).wf(),
        ensures
            final(self).wf(),
            (final(self).procs(), opt_view(r)) == chain_spec(
                old(self).procs(),
                stages@,
                path@,
                value@,
                cache_overdue,
            ),
            r matches Some(v) ==> v@.type_key() == chain_out_type(stages@, value@.type_key()),
            final(self).raw() == old(self).raw(),
            final(self).root_path() == old(self).root_path(),
    {
        let ghost procs0 = self.procs();
        let ghost raw0 = self.raw();
        let ghost root0 = self.root_path();
        let ghost value0 = value@;
        let mut cur = value;
        let mut i: usize = 0;
        assert(stages@.skip(0) =~= stages@);
        while i < stages.len()
            invariant
                i <= stages.len(),
                procs0 == old(self).procs(),
                raw0 == old(self).raw(),
                root0 == old(self).root_path(),
                value0 == value@,
                self.wf(),
                cur@.type_key() == chain_out_type(stages@.take(i as int), value0.type_key()),
                chain_spec(procs0, stages@, path@, value0, cache_overdue) == chain_spec(
                    self.procs(),
                    stages@.skip(i as int),
                    path@,
                    cur@,
                    cache_overdue,
                ),
                self.raw() == raw0,
                self.root_path() == root0,
            decreases stages.len() - i,
        {
            let stage = stages[i];
            assert(stages@.skip(i as int)[0] == stage);
            assert(stages@.skip(i as int).drop_first() =~= stages@.skip(i + 1));
            match self.loading(stage.0, stage.1, cur, path, cache_overdue) {
                Some(v) => {
                    cur = v;
                    assert(stages@.take(i + 1).last() == stage);
                },
                None => {
                    return None;
                },
            }
            i += 1;
        }
        assert(stages@.take(i as int) =~= stages@);
        Some(cur)
    }

    /// Loads `path` from what the storage gave for it, then runs the
    /// stages of `stages` on the bytes. Whether the load read the bytes
    /// anew is what tells each stage that its own entry is overdue.
    pub fn load_chain(
        &mut self,
        path: String,
        read: Option<(Vec<u8>, Timestamp)>,
        stages: &Vec<(u64, u64)>,
    ) -> (r: Option<ResValue>)
        requires
            old(self).wf(),
        ensures
            final(self).wf(),
            r matches Some(v) ==> v@.type_key() == chain_out_type(stages@, BYTES_TYPE),
            ({
                let (raw, loaded) = load_file_spec(old(self).raw(), path@, read_view(read));
                &&& final(self).raw() == raw
                &&& match loaded {
                    None => r is None && final(self).procs() == old(self).procs(),
                    Some((data, refreshed, _)) => (final(self).procs(), opt_view(r)) == chain_spec(
                        old(self).procs(),
                        stages@,
                        path@,
                        ResModel::Bytes(data),
                        refreshed,
                    ),
                }
            }),
            final(self).root_path() == old(self).root_path(),
    {
        match self.load_file(path, read) {
            None => None,
            Some((data, refreshed, resolved)) => self.run_chain(
                ResValue::Bytes(data),
                &resolved,
                refreshed,
                stages,
            ),
        }
    }
}

/// What a load answered, as plain data.
pub open spec fn loaded_view(r: Option<(Rc<Vec<u8>>, bool, String)>) -> Option<
    (Seq<u8>, bool, Seq<char>),
> {
    match r {
        Some(l) => Some((l.0@, l.1, l.2@)),
        None => None,
    }
}

/// What the storage gave, as plain data.
pub open spec fn read_view(read: Option<(Vec<u8>, Timestamp)>) -> Option<(Seq<u8>, Timestamp)> {
    match read {
        Some(f) => Some((f.0@, f.1)),
        None => None,
    }
}

} // verus!
