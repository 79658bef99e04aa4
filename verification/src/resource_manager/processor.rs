//! The contract of a single cached processing stage.

use super::value::{opt_view, ResModel, ResValue};
use vstd::prelude::*;

verus! {

/// What a stage's cache holds: for each path the value computed for it.
pub type CacheModel = Map<Seq<char>, ResModel>;

/// The transformation of a stage: the output for an input, or nothing
/// where the stage cannot interpret the input.
pub type Rule = spec_fn(ResModel) -> Option<ResModel>;

/// The cache and the answer after one cached run of a stage.
///
/// A stale entry for `path` is dropped first. An entry that is then
/// present is the answer, whatever `input` is. Otherwise the answer is
/// computed from `input` and, when there is one, stored under `path`.
pub open spec fn process_cache_spec(
    rule: Rule,
    cache: CacheModel,
    path: Seq<char>,
    input: ResModel,
    cache_overdue: bool,
) -> (CacheModel, Option<ResModel>) {
    let kept = if cache_overdue {
        cache.remove(path)
    } else {
        cache
    };
    if kept.contains_key(path) {
        (kept, Some(kept[path]))
    } else {
        match rule(input) {
            Some(out) => (kept.insert(path, out), Some(out)),
            None => (kept, None),
        }
    }
}

/// An answer, once given for a path, is given again for that path as long
/// as the entry is not declared overdue: whatever the input then is, the
/// stage does not compute again, and the cache stays as it is.
pub proof fn lemma_cached_answer_repeats(
    rule: Rule,
    cache: CacheModel,
    path: Seq<char>,
    first_input: ResModel,
    first_overdue: bool,
    second_input: ResModel,
)
    ensures
        ({
            let (cached, first) = process_cache_spec(rule, cache, path, first_input, first_overdue);
            first is Some ==> process_cache_spec(rule, cached, path, second_input, false) == (
                cached,
                first,
            )
        }),
{
}

/// An entry declared overdue is computed again: the answer is what the
/// stage makes of the input, whatever the cache held for the path, and it
/// is what the cache holds for the path afterwards.
pub proof fn lemma_overdue_recomputes(
    rule: Rule,
    cache: CacheModel,
    path: Seq<char>,
    input: ResModel,
)
    ensures
        ({
            let (cached, out) = process_cache_spec(rule, cache, path, input, true);
            &&& out == rule(input)
            &&& cached.get(path) == rule(input)
        }),
{
}

/// One stage of a processing chain: a transformation from one type of
/// value to another, with a cache of its outputs keyed by path.
pub trait ResProcesser {
    /// The identifier of the concrete stage type.
    spec fn proc_type(&self) -> u64;

    /// The identifier of the type of value the stage produces.
    spec fn out_type(&self) -> u64;

    /// The transformation the stage performs.
    spec fn rule(&self) -> Rule;

    /// The outputs currently cached, by path.
    spec fn cache(&self) -> CacheModel;

    /// The identifier of the concrete stage type.
    fn type_key(&self) -> (k: u64)
        ensures
            k == self.proc_type(),
    ;

    /// The identifier of the type of value the stage produces.
    fn out_key(&self) -> (k: u64)
        ensures
            k == self.out_type(),
    ;

    /// Transforms `d`. The cache plays no part.
    fn process(&self, d: ResValue) -> (r: Option<ResValue>)
        ensures
            opt_view(r) == self.rule()(d@),
            r matches Some(v) ==> v@.type_key() == self.out_type(),
    ;

    /// The cached output for `path`, if there is one.
    fn get_cache(&self, path: &String) -> (r: Option<ResValue>)
        ensures
            opt_view(r) == self.cache().get(path@),
            r matches Some(v) ==> v@.type_key() == self.out_type(),
    ;

    /// Stores `data` as the output for `path`, replacing an earlier one.
    /// A value of another type than the stage produces is not stored.
    fn add_cache(&mut self, path: String, data: ResValue)
        ensures
            final(self).cache() == if data@.type_key() == old(self).out_type() {
                old(self).cache().insert(path@, data@)
            } else {
                old(self).cache()
            },
            final(self).proc_type() == old(self).proc_type(),
            final(self).out_type() == old(self).out_type(),
            final(self).rule() == old(self).rule(),
    ;

    /// Forgets every cached output.
    fn clear_cache(&mut self)
        ensures
            final(self).cache() == CacheModel::empty(),
            final(self).proc_type() == old(self).proc_type(),
            final(self).out_type() == old(self).out_type(),
            final(self).rule() == old(self).rule(),
    ;

    /// Forgets the cached output for `path` and hands it out.
    fn rm_cache(&mut self, path: &String) -> (r: Option<ResValue>)
        ensures
            opt_view(r) == old(self).cache().get(path@),
            r matches Some(v) ==> v@.type_key() == old(self).out_type(),
            final(self).cache() == old(self).cache().remove(path@),
            final(self).proc_type() == old(self).proc_type(),
            final(self).out_type() == old(self).out_type(),
            final(self).rule() == old(self).rule(),
    ;

    /// Runs the stage for `path` through its cache.
    fn process_cache(&mut self, path: &String, d: ResValue, cache_overdue: bool) -> (r: Option<
        ResValue,
    >)
        ensures
            (final(self).cache(), opt_view(r)) == process_cache_spec(
                old(self).rule(),
                old(self).cache(),
                path@,
                d@,
                cache_overdue,
            ),
            r matches Some(v) ==> v@.type_key() == old(self).out_type(),
            final(self).proc_type() == old(self).proc_type(),
            final(self).out_type() == old(self).out_type(),
            final(self).rule() == old(self).rule(),
    {
        if cache_overdue {
            self.rm_cache(path);
        }
        match self.get_cache(path) {
            Some(data) => Some(data),
            None => {
                match self.process(d) {
                    Some(data) => {
                        self.add_cache(path.clone(), data.share());
                        Some(data)
                    },
                    None => None,
                }
            },
        }
    }
}

/// A stage of any type, for a registry whose stages are of different
/// types: the registry holds each behind this one type, and every call
/// goes on to the stage inside.
pub struct AnyProcesser {
    pub inner: Box<dyn ResProcesser>,
}

impl ResProcesser for AnyProcesser {
    open spec fn proc_type(&self) -> u64 {
        self.inner.proc_type()
    }

    open spec fn out_type(&self) -> u64 {
        self.inner.out_type()
    }

    open spec fn rule(&self) -> Rule {
        self.inner.rule()
    }

    open spec fn cache(&self) -> CacheModel {
        self.inner.cache()
    }

    fn type_key(&self) -> (k: u64) {
        self.inner.type_key()
    }

    fn out_key(&self) -> (k: u64) {
        self.inner.out_key()
    }

    fn process(&self, d: ResValue) -> (r: Option<ResValue>) {
        self.inner.process(d)
    }

    fn get_cache(&self, path: &String) -> (r: Option<ResValue>) {
        self.inner.get_cache(path)
    }

    fn add_cache(&mut self, path: String, data: ResValue) {
        self.inner.add_cache(path, data)
    }

    fn clear_cache(&mut self) {
        self.inner.clear_cache()
    }

    fn rm_cache(&mut self, path: &String) -> (r: Option<ResValue>) {
        self.inner.rm_cache(path)
    }

    fn process_cache(&mut self, path: &String, d: ResValue, cache_overdue: bool) -> (r: Option<
        ResValue,
    >) {
        self.inner.process_cache(path, d, cache_overdue)
    }
}

} // verus!
