use vstd::prelude::*;

use std::sync::atomic::AtomicU8;
use std::sync::atomic::Ordering;
use std::sync::Arc;

use crate::filter::Filter;
use crate::level::LogLevel;
use crate::sink::Sink;

verus! {

#[verifier::external_type_specification]
#[verifier::external_body]
#[verifier::reject_recursive_types(R)]
#[verifier::reject_recursive_types(T)]
pub struct ExRwLock<R, T: ?Sized>(parking_lot::lock_api::RwLock<R, T>);

#[verifier::external_type_specification]
#[verifier::external_body]
pub struct ExRawRwLock<const RECURSIVE: bool>(parking_lot::RawRwLock<RECURSIVE>);

/// `parking_lot::RwLock::new` over an empty list of filters.
#[verifier::external_body]
fn filter_lock_new() -> (r: parking_lot::RwLock<Vec<Arc<dyn Filter>>>) {
    parking_lot::RwLock::new(Vec::new())
}

/// `parking_lot::RwLock::read`, copying out the filters it guards. Other threads
/// may add or clear filters at any moment, so nothing is stated of the copy.
#[verifier::external_body]
fn filter_lock_snapshot(lock: &parking_lot::RwLock<Vec<Arc<dyn Filter>>>) -> (r: Vec<Arc<dyn Filter>>) {
    lock.read().clone()
}

/// `parking_lot::RwLock::write`, then `Vec::push` of `filter` on the guarded list.
#[verifier::external_body]
fn filter_lock_push<F: Filter + 'static>(lock: &parking_lot::RwLock<Vec<Arc<dyn Filter>>>, filter: Arc<F>) {
    lock.write().push(filter)
}

/// `parking_lot::RwLock::write`, then `Vec::clear` on the guarded list.
#[verifier::external_body]
fn filter_lock_clear(lock: &parking_lot::RwLock<Vec<Arc<dyn Filter>>>) {
    lock.write().clear()
}

/// A named logger: its runtime level, the sinks its messages go to, and the
/// filters they must pass.
pub struct Logger {
    pub name: String,
    pub log_level: AtomicU8,
    pub sinks: Vec<Arc<dyn Sink>>,
    pub filters: parking_lot::RwLock<Vec<Arc<dyn Filter>>>,
}

/// The level a stored level byte stands for; bytes that name no level read as `Info`.
pub open spec fn level_of_byte(b: u8) -> LogLevel {
    match LogLevel::spec_from_rank(b as int) {
        Some(l) => l,
        None => LogLevel::Info,
    }
}

/// A level stored as its byte reads back as that level.
pub proof fn lemma_level_byte_roundtrip(level: LogLevel)
    ensures
        level.rank() < 256,
        level_of_byte(level.rank() as u8) == level,
{
}

/// The byte a level is stored as: its rank.
fn level_byte(level: LogLevel) -> (r: u8)
    ensures
        r == level.rank(),
{
    level.as_usize() as u8
}

/// Reads a stored level byte back as a level.
pub fn level_from_byte(b: u8) -> (r: LogLevel)
    ensures
        r == level_of_byte(b),
{
    match LogLevel::from_usize(b as usize) {
        Some(l) => l,
        None => LogLevel::Info,
    }
}

impl Logger {
    pub fn new(name: String, sinks: Vec<Arc<dyn Sink>>) -> (r: Arc<Self>)
        ensures
            r.name@ == name@,
            r.sinks@ == sinks@,
    {
        let info = level_byte(LogLevel::Info);
        Arc::new(Logger { name, log_level: AtomicU8::new(info), sinks, filters: filter_lock_new() })
    }

    pub fn set_log_level(&self, level: LogLevel) {
        let b = level_byte(level);
        self.log_level.store(b, Ordering::Relaxed);
    }

    pub fn log_level(&self) -> LogLevel {
        let b = self.log_level.load(Ordering::Relaxed);
        level_from_byte(b)
    }

    /// Adds a filter that this logger's messages must pass.
    pub fn add_filter<F: Filter + 'static>(&self, filter: Arc<F>) {
        filter_lock_push(&self.filters, filter);
    }

    /// Removes every filter.
    pub fn clear_filters(&self) {
        filter_lock_clear(&self.filters);
    }

    /// The filters as they stand now.
    pub fn filters_snapshot(&self) -> Vec<Arc<dyn Filter>> {
        filter_lock_snapshot(&self.filters)
    }
}

} // verus!
