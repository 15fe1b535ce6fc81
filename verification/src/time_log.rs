//! How long the phases of a run took.

use std::time::{Duration, Instant};
use vstd::prelude::*;

verus! {

/// A point in time of std's monotonic clock.
#[verifier::external_type_specification]
#[verifier::external_body]
pub struct ExInstant(Instant);

/// Calls `Instant::elapsed`. The result depends on the clock: nothing is
/// claimed of it.
#[verifier::external_body]
fn elapsed_since(start: &Instant) -> Duration {
    start.elapsed()
}

/// The durations measured in one run, each from the start of the log to the
/// moment it was logged. A duration is logged once.
#[derive(Debug)]
pub struct TimeLog {
    /// The moment from which the log measures.
    pub start_instant: Instant,
    /// How long the search took: walking the filesystem, matching, and
    /// sending the results to the printer.
    pub search_duration: Option<Duration>,
    /// How long it took until the last message was printed.
    pub print_duration: Option<Duration>,
    /// How long it took until the first result arrived at the printer.
    pub printer_spawn_to_print: Option<Duration>,
    /// How long the first result waited at the printer before anything was
    /// printed.
    pub first_result_to_first_print: Option<Duration>,
    /// How long the run took from its start to its end.
    pub start_die_duration: Option<Duration>,
}

impl TimeLog {
    /// A log that measures from `start_instant` and holds nothing yet.
    pub fn new(start_instant: Instant) -> (log: Self)
        ensures
            log.start_instant == start_instant,
            log.search_duration is None,
            log.print_duration is None,
            log.printer_spawn_to_print is None,
            log.first_result_to_first_print is None,
            log.start_die_duration is None,
    {
        TimeLog {
            start_instant,
            search_duration: None,
            print_duration: None,
            printer_spawn_to_print: None,
            first_result_to_first_print: None,
            start_die_duration: None,
        }
    }

    /// Sets down `elapsed` as how long the search took.
    pub fn record_search_duration(&mut self, elapsed: Duration)
        requires
            old(self).search_duration is None,
        ensures
            final(self).search_duration == Some(elapsed),
            final(self).start_instant == old(self).start_instant,
            final(self).print_duration == old(self).print_duration,
            final(self).printer_spawn_to_print == old(self).printer_spawn_to_print,
            final(self).first_result_to_first_print == old(self).first_result_to_first_print,
            final(self).start_die_duration == old(self).start_die_duration,
    {
        self.search_duration = Some(elapsed);
    }

    /// Logs how long the search took: the time since the log began to measure, as the clock
    /// has it now.
    pub fn log_search_duration(&mut self)
        requires
            old(self).search_duration is None,
        ensures
            final(self).search_duration is Some,
            final(self).start_instant == old(self).start_instant,
            final(self).print_duration == old(self).print_duration,
            final(self).printer_spawn_to_print == old(self).printer_spawn_to_print,
            final(self).first_result_to_first_print == old(self).first_result_to_first_print,
            final(self).start_die_duration == old(self).start_die_duration,
    {
        let elapsed = elapsed_since(&self.start_instant);
        self.record_search_duration(elapsed);
    }

    /// Sets down `elapsed` as how long it took until the last message was printed.
    pub fn record_print_duration(&mut self, elapsed: Duration)
        requires
            old(self).print_duration is None,
        ensures
            final(self).print_duration == Some(elapsed),
            final(self).start_instant == old(self).start_instant,
            final(self).search_duration == old(self).search_duration,
            final(self).printer_spawn_to_print == old(self).printer_spawn_to_print,
            final(self).first_result_to_first_print == old(self).first_result_to_first_print,
            final(self).start_die_duration == old(self).start_die_duration,
    {
        self.print_duration = Some(elapsed);
    }

    /// Logs how long it took until the last message was printed: the time since the log began to measure, as the clock
    /// has it now.
    pub fn log_print_duration(&mut self)
        requires
            old(self).print_duration is None,
        ensures
            final(self).print_duration is Some,
            final(self).start_instant == old(self).start_instant,
            final(self).search_duration == old(self).search_duration,
            final(self).printer_spawn_to_print == old(self).printer_spawn_to_print,
            final(self).first_result_to_first_print == old(self).first_result_to_first_print,
            final(self).start_die_duration == old(self).start_die_duration,
    {
        let elapsed = elapsed_since(&self.start_instant);
        self.record_print_duration(elapsed);
    }

    /// Sets down `elapsed` as how long it took until the first result arrived at the printer.
    pub fn record_printer_spawn_to_print(&mut self, elapsed: Duration)
        requires
            old(self).printer_spawn_to_print is None,
        ensures
            final(self).printer_spawn_to_print == Some(elapsed),
            final(self).start_instant == old(self).start_instant,
            final(self).search_duration == old(self).search_duration,
            final(self).print_duration == old(self).print_duration,
            final(self).first_result_to_first_print == old(self).first_result_to_first_print,
            final(self).start_die_duration == old(self).start_die_duration,
    {
        self.printer_spawn_to_print = Some(elapsed);
    }

    /// Logs how long it took until the first result arrived at the printer: the time since the log began to measure, as the clock
    /// has it now.
    pub fn log_printer_spawn_to_print(&mut self)
        requires
            old(self).printer_spawn_to_print is None,
        ensures
            final(self).printer_spawn_to_print is Some,
            final(self).start_instant == old(self).start_instant,
            final(self).search_duration == old(self).search_duration,
            final(self).print_duration == old(self).print_duration,
            final(self).first_result_to_first_print == old(self).first_result_to_first_print,
            final(self).start_die_duration == old(self).start_die_duration,
    {
        let elapsed = elapsed_since(&self.start_instant);
        self.record_printer_spawn_to_print(elapsed);
    }

    /// Sets down `elapsed` as how long the run took from its start to its end.
    pub fn record_start_die_duration(&mut self, elapsed: Duration)
        requires
            old(self).start_die_duration is None,
        ensures
            final(self).start_die_duration == Some(elapsed),
            final(self).start_instant == old(self).start_instant,
            final(self).search_duration == old(self).search_duration,
            final(self).print_duration == old(self).print_duration,
            final(self).printer_spawn_to_print == old(self).printer_spawn_to_print,
            final(self).first_result_to_first_print == old(self).first_result_to_first_print,
    {
        self.start_die_duration = Some(elapsed);
    }

    /// Logs how long the run took from its start to its end: the time since the log began to measure, as the clock
    /// has it now.
    pub fn log_start_die_duration(&mut self)
        requires
            old(self).start_die_duration is None,
        ensures
            final(self).start_die_duration is Some,
            final(self).start_instant == old(self).start_instant,
            final(self).search_duration == old(self).search_duration,
            final(self).print_duration == old(self).print_duration,
            final(self).printer_spawn_to_print == old(self).printer_spawn_to_print,
            final(self).first_result_to_first_print == old(self).first_result_to_first_print,
    {
        let elapsed = elapsed_since(&self.start_instant);
        self.record_start_die_duration(elapsed);
    }
}

} // verus!
