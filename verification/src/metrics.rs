//! Counts of the requests that a server has had.

use vstd::prelude::*;
use vstd::string::*;

use crate::json::{lemma_object_view, members_view, print_json, printed, reads_back, Json, JsonView};
use crate::pairs::lemma_position_unique;

verus! {

/// Counts of requests, of the time that they took, and of the threads that serve them. The
/// counts start over at zero where they run out of 64 bits.
pub struct Metrics {
    pub total: u64,
    pub active: u64,
    pub latency_us: u64,
    pub workers: u32,
}

/// The average time of a request in microseconds: zero where there was none.
pub open spec fn average_latency(metrics: Metrics) -> u64 {
    if metrics.total > 0 {
        (metrics.latency_us / metrics.total) as u64
    } else {
        0
    }
}

/// The counts as a document.
pub open spec fn stats_document(metrics: Metrics, queue_depth: usize) -> JsonView {
    JsonView::Object(
        seq![
            ("requests_total"@, JsonView::Int(metrics.total as int)),
            ("requests_active"@, JsonView::Int(metrics.active as int)),
            ("avg_latency_us"@, JsonView::Int(average_latency(metrics) as int)),
            ("queue_depth"@, JsonView::Int(queue_depth as int)),
            ("workers"@, JsonView::Int(metrics.workers as int)),
        ],
    )
}

/// The counts once a request began.
pub open spec fn begun(metrics: Metrics) -> Metrics {
    Metrics {
        total: metrics.total.wrapping_add(1),
        active: metrics.active.wrapping_add(1),
        ..metrics
    }
}

/// The counts once a request ended that took that time.
pub open spec fn finished(metrics: Metrics, duration_us: u64) -> Metrics {
    Metrics {
        active: metrics.active.wrapping_sub(1),
        latency_us: metrics.latency_us.wrapping_add(duration_us),
        ..metrics
    }
}

/// A request that began and ended is counted once in all, is active no more, and its time is
/// added, whatever other requests begin or end in between.
pub proof fn lemma_counted_once(metrics: Metrics, duration_us: u64, other_us: u64)
    ensures
        begun(metrics).total == metrics.total.wrapping_add(1),
        begun(metrics).active == metrics.active.wrapping_add(1),
        begun(metrics).latency_us == metrics.latency_us,
        begun(metrics).workers == metrics.workers,
        finished(metrics, duration_us).total == metrics.total,
        finished(metrics, duration_us).workers == metrics.workers,
        finished(begun(metrics), duration_us).active == metrics.active,
        finished(begun(metrics), duration_us).total == metrics.total.wrapping_add(1),
        finished(begun(metrics), duration_us).latency_us == metrics.latency_us.wrapping_add(
            duration_us,
        ),
        begun(finished(metrics, duration_us)) == finished(begun(metrics), duration_us),
        finished(finished(metrics, duration_us), other_us) == finished(
            finished(metrics, other_us),
            duration_us,
        ),
{
}

proof fn lemma_stats_names()
    ensures
        "requests_total"@ != "requests_active"@,
        "requests_total"@ != "avg_latency_us"@,
        "requests_total"@ != "queue_depth"@,
        "requests_total"@ != "workers"@,
        "requests_active"@ != "avg_latency_us"@,
        "requests_active"@ != "queue_depth"@,
        "requests_active"@ != "workers"@,
        "avg_latency_us"@ != "queue_depth"@,
        "avg_latency_us"@ != "workers"@,
        "queue_depth"@ != "workers"@,
{
    reveal_strlit("requests_total");
    reveal_strlit("requests_active");
    reveal_strlit("avg_latency_us");
    reveal_strlit("queue_depth");
    reveal_strlit("workers");
    assert("requests_total"@[0] == 'r' && "requests_total"@[9] == 't');
    assert("requests_active"@[0] == 'r' && "requests_active"@[9] == 'a');
    assert("avg_latency_us"@[0] == 'a');
    assert("queue_depth"@[0] == 'q');
    assert("workers"@[0] == 'w');
}

/// The counts are found in their document under their names, and nothing else is.
pub proof fn lemma_stats(metrics: Metrics, queue_depth: usize)
    ensures
        ({
            let stats = stats_document(metrics, queue_depth);
            &&& stats.member("requests_total"@) == Some(JsonView::Int(metrics.total as int))
            &&& stats.member("requests_active"@) == Some(JsonView::Int(metrics.active as int))
            &&& stats.member("queue_depth"@) == Some(JsonView::Int(queue_depth as int))
            &&& stats.member("workers"@) == Some(JsonView::Int(metrics.workers as int))
            &&& stats.member("avg_latency_us"@) == Some(
                JsonView::Int(
                    if metrics.total == 0 {
                        0
                    } else {
                        metrics.latency_us as int / metrics.total as int
                    },
                ),
            )
            &&& stats matches JsonView::Object(members) && members.len() == 5
        }),
{
    lemma_stats_names();
    let members = stats_document(metrics, queue_depth)->Object_0;
    lemma_position_unique(members, "requests_total"@, 0);
    lemma_position_unique(members, "requests_active"@, 1);
    lemma_position_unique(members, "avg_latency_us"@, 2);
    lemma_position_unique(members, "queue_depth"@, 3);
    lemma_position_unique(members, "workers"@, 4);
}

/// The average is at most the time of all requests together, and that many times the number of
/// requests is at most that time.
pub proof fn lemma_average(metrics: Metrics)
    ensures
        average_latency(metrics) * metrics.total <= metrics.latency_us,
        metrics.total > 0 ==> metrics.latency_us < (average_latency(metrics) + 1) * metrics.total,
{
    let total = metrics.total as int;
    let latency = metrics.latency_us as int;
    if total > 0 {
        assert((latency / total) * total <= latency < (latency / total + 1) * total)
            by (nonlinear_arith)
            requires
                total > 0,
                latency >= 0,
        ;
    } else {
        let average = average_latency(metrics) as int;
        assert(average * total == 0) by (nonlinear_arith)
            requires
                total == 0,
        ;
    }
}

impl Metrics {
    /// No requests.
    pub fn new() -> (r: Metrics)
        ensures
            r == (Metrics { total: 0, active: 0, latency_us: 0, workers: 0 }),
    {
        Metrics { total: 0, active: 0, latency_us: 0, workers: 0 }
    }

    /// Counts a request that begins.
    pub fn begin(&mut self)
        ensures
            *final(self) == begun(*old(self)),
            final(self).total == old(self).total.wrapping_add(1),
            final(self).active == old(self).active.wrapping_add(1),
            final(self).latency_us == old(self).latency_us,
            final(self).workers == old(self).workers,
    {
        self.total = self.total.wrapping_add(1);
        self.active = self.active.wrapping_add(1);
    }

    /// Counts a request that ends, and the time that it took.
    pub fn finish(&mut self, duration_us: u64)
        ensures
            *final(self) == finished(*old(self), duration_us),
            final(self).total == old(self).total,
            final(self).active == old(self).active.wrapping_sub(1),
            final(self).latency_us == old(self).latency_us.wrapping_add(duration_us),
            final(self).workers == old(self).workers,
    {
        self.latency_us = self.latency_us.wrapping_add(duration_us);
        self.active = self.active.wrapping_sub(1);
    }
}

/// Makes a document of the counts.
pub fn stats_json(metrics: &Metrics, queue_depth: usize) -> (r: Json)
    ensures
        r@ == stats_document(*metrics, queue_depth),
{
    let average: u64 = if metrics.total > 0 {
        metrics.latency_us / metrics.total
    } else {
        0
    };
    let mut members: Vec<(String, Json)> = Vec::new();
    members.push(("requests_total".to_owned(), Json::Natural(metrics.total)));
    members.push(("requests_active".to_owned(), Json::Natural(metrics.active)));
    members.push(("avg_latency_us".to_owned(), Json::Natural(average)));
    members.push(("queue_depth".to_owned(), Json::Natural(queue_depth as u64)));
    members.push(("workers".to_owned(), Json::Natural(metrics.workers as u64)));
    proof {
        lemma_object_view(members);
        assert(members_view(members@) =~= stats_document(*metrics, queue_depth)->Object_0);
    }
    Json::Object(members)
}

/// Writes the counts as JSON text.
pub fn quill_server_stats(metrics: &Metrics, queue_depth: usize) -> (r: String)
    ensures
        r@ == printed(stats_document(*metrics, queue_depth)),
        reads_back(r@, stats_document(*metrics, queue_depth)),
{
    print_json(&stats_json(metrics, queue_depth))
}

} // verus!
