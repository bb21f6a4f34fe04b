//! Progress reporting: a sink for "now running X" / "one test finished"
//! events, with two interchangeable implementations — plain textual lines,
//! and a live progress bar with an ETA column. Every event is also appended
//! to a ghost event log, so the orchestrator's contract can state that each
//! test gets exactly one announcement and one completion, in order.

use vstd::prelude::*;
use std::io::Write;
use crate::model::TestRunResult;

verus! {

/// One event handed to the progress reporter.
pub enum ReporterEvent {
    Announce(String),
    CompleteOne,
}

/// The event stream a sequence of completed tests produces: one
/// announcement and one completion per test, in strict alternation, in
/// order.
pub open spec fn events_of(rs: Seq<TestRunResult>) -> Seq<ReporterEvent>
    decreases rs.len(),
{
    if rs.len() == 0 {
        Seq::empty()
    } else {
        events_of(rs.drop_last()) + seq![
            ReporterEvent::Announce(rs.last().name),
            ReporterEvent::CompleteOne,
        ]
    }
}

/// Relies on `std::io::Stdout::write_fmt` (via `writeln!`): prints one
/// progress line; no effect on run correctness.
#[verifier::external_body]
fn print_progress_line(curr: u64, total: u64, name: &str) {
    let _ = writeln!(std::io::stdout(), "({}/{}) Running {}...", curr, total, name);
}

#[verifier::external_type_specification]
#[verifier::external_body]
pub struct ExProgressBar(indicatif::ProgressBar);

#[verifier::external_type_specification]
#[verifier::external_body]
pub struct ExProgressStyle(indicatif::ProgressStyle);

/// Relies on `indicatif::ProgressBar::new`: a bar sized to the test count;
/// terminal rendering only.
#[verifier::external_body]
fn progress_bar_new(len: u64) -> indicatif::ProgressBar {
    indicatif::ProgressBar::new(len)
}

/// Relies on `indicatif::ProgressStyle::with_template`: a style from the
/// template, or nothing if the template does not parse.
#[verifier::external_body]
fn progress_style_from_template(template: &str) -> Option<indicatif::ProgressStyle> {
    match indicatif::ProgressStyle::with_template(template) {
        Ok(style) => Some(style),
        Err(_) => None,
    }
}

/// Relies on `indicatif::ProgressBar::with_style`: the same bar, restyled.
#[verifier::external_body]
fn progress_bar_with_style(
    bar: indicatif::ProgressBar,
    style: indicatif::ProgressStyle,
) -> indicatif::ProgressBar {
    bar.with_style(style)
}

/// Relies on `indicatif::ProgressBar::set_message`: updates the bar's
/// message; terminal rendering only.
#[verifier::external_body]
fn progress_bar_set_message(bar: &indicatif::ProgressBar, msg: String) {
    bar.set_message(msg);
}

/// Relies on `indicatif::ProgressBar::inc`: advances the bar by one;
/// terminal rendering only.
#[verifier::external_body]
fn progress_bar_inc(bar: &indicatif::ProgressBar) {
    bar.inc(1);
}

/// Which reporter implementation was selected at run start.
pub enum ReporterMode {
    /// Line-oriented textual output.
    Simple,
    /// A live progress bar with an ETA column.
    Fancy(indicatif::ProgressBar),
}

/// The progress reporter: two operations, `set_current_test_name` and
/// `notify_test_completed`; unaware of persistence and cancellation.
pub struct ProgressIndicator {
    pub mode: ReporterMode,
    pub num_tests: u64,
    pub curr_test: u64,
    pub events: Ghost<Seq<ReporterEvent>>,
}

impl ProgressIndicator {
    /// Build the reporter selected by `simple` for a run of `num_tests`
    /// tests.
    pub fn create(num_tests: u64, simple: bool) -> (p: ProgressIndicator)
        ensures
            p.events@ == Seq::<ReporterEvent>::empty(),
            p.curr_test == 0,
            p.num_tests == num_tests,
            simple ==> p.mode is Simple,
            !simple ==> p.mode is Fancy,
    {
        let mode = if simple {
            ReporterMode::Simple
        } else {
            let bar = progress_bar_new(num_tests);
            // The fixed template is valid; should the style library ever
            // reject it, the bar simply keeps its default look.
            let bar = match progress_style_from_template(
                "{bar:60.magenta} {pos}/{len} ETA: [{eta_precise}] | Test: {msg}",
            ) {
                Option::Some(style) => progress_bar_with_style(bar, style),
                Option::None => bar,
            };
            ReporterMode::Fancy(bar)
        };
        ProgressIndicator { mode, num_tests, curr_test: 0, events: Ghost(Seq::empty()) }
    }

    /// Announce the test that is about to run.
    pub fn set_current_test_name(&mut self, name: &String)
        ensures
            final(self).events@ == old(self).events@.push(ReporterEvent::Announce(*name)),
            final(self).curr_test == old(self).curr_test,
            final(self).num_tests == old(self).num_tests,
            final(self).mode == old(self).mode,
    {
        match &self.mode {
            ReporterMode::Simple => {
                print_progress_line(self.curr_test, self.num_tests, name.as_str());
            },
            ReporterMode::Fancy(bar) => {
                progress_bar_set_message(bar, name.clone());
            },
        }
        self.events = Ghost(self.events@.push(ReporterEvent::Announce(*name)));
    }

    /// Count one finished test.
    pub fn notify_test_completed(&mut self)
        requires
            old(self).curr_test < u64::MAX,
        ensures
            final(self).events@ == old(self).events@.push(ReporterEvent::CompleteOne),
            final(self).curr_test == old(self).curr_test + 1,
            final(self).num_tests == old(self).num_tests,
            final(self).mode == old(self).mode,
    {
        match &self.mode {
            ReporterMode::Simple => {},
            ReporterMode::Fancy(bar) => {
                progress_bar_inc(bar);
            },
        }
        self.curr_test = self.curr_test + 1;
        self.events = Ghost(self.events@.push(ReporterEvent::CompleteOne));
    }
}

} // verus!
