use vstd::prelude::*;

use std::sync::Arc;

use crate::logger::Logger;
use crate::queue::SpscConsumer;
use crate::sink::Sink;
use crate::thread_context::ThreadContext;

verus! {

/// `Arc::clone`: another handle to the same value.
#[verifier::external_body]
fn share<T: ?Sized>(a: &Arc<T>) -> (r: Arc<T>)
    ensures
        r == *a,
{
    Arc::clone(a)
}

/// The position of the first logger of `registry` named `name`, if any.
pub open spec fn find_logger(registry: Seq<Arc<Logger>>, name: Seq<char>) -> Option<int>
    decreases registry.len(),
{
    if registry.len() == 0 {
        None
    } else if registry[0].name@ == name {
        Some(0)
    } else {
        match find_logger(registry.drop_first(), name) {
            Some(i) => Some(i + 1),
            None => None,
        }
    }
}

proof fn lemma_find_in_range(registry: Seq<Arc<Logger>>, name: Seq<char>)
    ensures
        find_logger(registry, name) matches Some(i) ==> 0 <= i < registry.len() && registry[i].name@
            == name,
    decreases registry.len(),
{
    if registry.len() > 0 {
        lemma_find_in_range(registry.drop_first(), name);
    }
}

proof fn lemma_find_after_push(registry: Seq<Arc<Logger>>, name: Seq<char>, r: Arc<Logger>)
    requires
        find_logger(registry, name) is None,
        r.name@ == name,
    ensures
        find_logger(registry.push(r), name) == Some(registry.len() as int),
    decreases registry.len(),
{
    if registry.len() > 0 {
        assert(registry.push(r).drop_first() =~= registry.drop_first().push(r));
        lemma_find_after_push(registry.drop_first(), name, r);
    }
}

/// A name that `create_or_get_logger` has answered is found again, and names the
/// same logger: asking twice for a name gives the same logger.
pub proof fn lemma_second_lookup(
    before: Seq<Arc<Logger>>,
    name: Seq<char>,
    r: Arc<Logger>,
    after: Seq<Arc<Logger>>,
)
    requires
        match find_logger(before, name) {
            Some(i) => r == before[i] && after == before,
            None => r.name@ == name && after == before.push(r),
        },
    ensures
        find_logger(after, name) matches Some(j) && after[j] == r,
{
    lemma_find_in_range(before, name);
    if find_logger(before, name) is None {
        lemma_find_after_push(before, name, r);
    }
}

/// Where loggers are created and looked up by name, and where a thread gets its queue.
pub struct Frontend;

impl Frontend {
    /// The logger registered under `name`, or a new one with `sinks` that is then
    /// registered; asking twice for a name gives the same logger.
    pub fn create_or_get_logger(
        registry: &mut Vec<Arc<Logger>>,
        name: &str,
        sinks: Vec<Arc<dyn Sink>>,
    ) -> (r: Arc<Logger>)
        ensures
            match find_logger(old(registry)@, name@) {
                Some(i) => r == old(registry)@[i] && final(registry)@ == old(registry)@,
                None => {
                    &&& r.name@ == name@
                    &&& r.sinks@ == sinks@
                    &&& final(registry)@ == old(registry)@.push(r)
                },
            },
    {
        let key = name.to_owned();
        let mut i: usize = 0;
        assert(registry@.subrange(0, registry@.len() as int) =~= registry@);
        while i < registry.len()
            invariant
                i <= registry@.len(),
                registry@ == old(registry)@,
                key@ == name@,
                find_logger(registry@, key@) == (match find_logger(
                    registry@.subrange(i as int, registry@.len() as int),
                    key@,
                ) {
                    Some(j) => Some(j + i),
                    None => None,
                }),
            decreases registry@.len() - i,
        {
            let ghost rest = registry@.subrange(i as int, registry@.len() as int);
            assert(rest.drop_first() =~= registry@.subrange(i + 1, registry@.len() as int));
            if registry[i].name == key {
                return share(&registry[i]);
            }
            i = i + 1;
        }
        assert(registry@.subrange(i as int, registry@.len() as int) =~= Seq::<Arc<Logger>>::empty());
        let logger = Logger::new(name.to_owned(), sinks);
        registry.push(share(&logger));
        logger
    }

    /// Sets up a thread's queue ahead of its first message: a context with a
    /// block of the default capacity, whose consumer goes to `registry`.
    pub fn preallocate(registry: &mut Vec<SpscConsumer>) -> (r: ThreadContext)
        ensures
            r.spec_mode() == crate::config::QueueMode::BoundedDropping,
            r.block().spec_capacity() == crate::queue::DEFAULT_QUEUE_CAPACITY,
            final(registry)@.len() == old(registry)@.len() + 1,
    {
        ThreadContext::new(registry)
    }
}

} // verus!
