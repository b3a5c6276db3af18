//! Statistics that the server reports for itself, a tube, a job and a job
//! group, read from its YAML replies, and a snapshot of the server.

use vstd::prelude::*;

use crate::order::{
    into_items, items_of, lemma_items_of_to_multiset, lemma_sort_positions, law_sort_desc,
    sort_by_key_desc, sort_desc, with_key,
};
use crate::parse::{get_bool, get_str, get_u64, parse_yaml_map, yaml_bool, yaml_map, yaml_str, yaml_u64};

verus! {

/// `std::time::Instant`, carried by a snapshot as the time it was taken.
#[verifier::external_type_specification]
#[verifier::external_body]
pub struct ExInstant(std::time::Instant);

/// `Clone::clone` on `std::time::Instant`, which std derives beside `Copy`:
/// the clone is the same instant.
pub assume_specification[<std::time::Instant as Clone>::clone](i: &std::time::Instant) -> (r: std::time::Instant)
    ensures
        r == *i,
;

/// Server statistics (the reply to `stats`).
///
/// The three measurements that the server reports as decimal fractions
/// (`rusage_utime`, `rusage_stime`, `processing_time_fast_threshold`) are
/// kept as the text the server sent, empty when it sent none.
#[derive(Clone, Debug)]
pub struct ServerStats {
    pub version: String,
    pub uptime: u64,
    pub current_connections: u64,
    pub current_producers: u64,
    pub current_workers: u64,
    pub current_waiting: u64,
    pub current_jobs_ready: u64,
    pub current_jobs_reserved: u64,
    pub current_jobs_delayed: u64,
    pub current_jobs_buried: u64,
    pub cmd_put: u64,
    pub cmd_reserve: u64,
    pub cmd_reserve_with_timeout: u64,
    pub cmd_delete: u64,
    pub job_timeouts: u64,
    pub total_jobs: u64,
    pub rusage_utime: String,
    pub rusage_stime: String,
    pub rusage_maxrss: u64,
    pub draining: bool,
    pub max_job_size: u64,
    pub binlog_enabled: bool,
    pub binlog_total_bytes: u64,
    pub binlog_file_count: u64,
    pub binlog_current_index: u64,
    pub binlog_oldest_index: u64,
    pub name: String,
    pub hostname: String,
    pub os: String,
    pub platform: String,
    pub processing_time_fast_threshold: String,
}

impl ServerStats {
    /// Whether each field holds what `m` has under the field's key.
    pub open spec fn read_from(&self, m: Map<Seq<char>, Seq<char>>) -> bool {
        &&& self.version@ == yaml_str(m, "version"@)
        &&& self.uptime == yaml_u64(m, "uptime"@)
        &&& self.current_connections == yaml_u64(m, "current-connections"@)
        &&& self.current_producers == yaml_u64(m, "current-producers"@)
        &&& self.current_workers == yaml_u64(m, "current-workers"@)
        &&& self.current_waiting == yaml_u64(m, "current-waiting"@)
        &&& self.current_jobs_ready == yaml_u64(m, "current-jobs-ready"@)
        &&& self.current_jobs_reserved == yaml_u64(m, "current-jobs-reserved"@)
        &&& self.current_jobs_delayed == yaml_u64(m, "current-jobs-delayed"@)
        &&& self.current_jobs_buried == yaml_u64(m, "current-jobs-buried"@)
        &&& self.cmd_put == yaml_u64(m, "cmd-put"@)
        &&& self.cmd_reserve == yaml_u64(m, "cmd-reserve"@)
        &&& self.cmd_reserve_with_timeout == yaml_u64(m, "cmd-reserve-with-timeout"@)
        &&& self.cmd_delete == yaml_u64(m, "cmd-delete"@)
        &&& self.job_timeouts == yaml_u64(m, "job-timeouts"@)
        &&& self.total_jobs == yaml_u64(m, "total-jobs"@)
        &&& self.rusage_utime@ == yaml_str(m, "rusage-utime"@)
        &&& self.rusage_stime@ == yaml_str(m, "rusage-stime"@)
        &&& self.rusage_maxrss == yaml_u64(m, "rusage-maxrss"@)
        &&& self.draining == yaml_bool(m, "draining"@)
        &&& self.max_job_size == yaml_u64(m, "max-job-size"@)
        &&& self.binlog_enabled == yaml_bool(m, "binlog-enabled"@)
        &&& self.binlog_total_bytes == yaml_u64(m, "binlog-total-bytes"@)
        &&& self.binlog_file_count == yaml_u64(m, "binlog-file-count"@)
        &&& self.binlog_current_index == yaml_u64(m, "binlog-current-index"@)
        &&& self.binlog_oldest_index == yaml_u64(m, "binlog-oldest-index"@)
        &&& self.name@ == yaml_str(m, "name"@)
        &&& self.hostname@ == yaml_str(m, "hostname"@)
        &&& self.os@ == yaml_str(m, "os"@)
        &&& self.platform@ == yaml_str(m, "platform"@)
        &&& self.processing_time_fast_threshold@ == yaml_str(m, "processing-time-fast-threshold"@)
    }

    /// Reads server statistics from the YAML body of a `stats` reply.
    pub fn from_yaml(yaml: &str) -> (s: Self)
        ensures
            s.read_from(yaml_map(yaml@)),
            s.version@ == yaml_str(yaml_map(yaml@), "version"@),
            s.uptime == yaml_u64(yaml_map(yaml@), "uptime"@),
            s.current_connections == yaml_u64(yaml_map(yaml@), "current-connections"@),
            s.current_producers == yaml_u64(yaml_map(yaml@), "current-producers"@),
            s.current_workers == yaml_u64(yaml_map(yaml@), "current-workers"@),
            s.current_waiting == yaml_u64(yaml_map(yaml@), "current-waiting"@),
            s.current_jobs_ready == yaml_u64(yaml_map(yaml@), "current-jobs-ready"@),
            s.current_jobs_reserved == yaml_u64(yaml_map(yaml@), "current-jobs-reserved"@),
            s.current_jobs_delayed == yaml_u64(yaml_map(yaml@), "current-jobs-delayed"@),
            s.current_jobs_buried == yaml_u64(yaml_map(yaml@), "current-jobs-buried"@),
            s.cmd_put == yaml_u64(yaml_map(yaml@), "cmd-put"@),
            s.cmd_reserve == yaml_u64(yaml_map(yaml@), "cmd-reserve"@),
            s.cmd_reserve_with_timeout == yaml_u64(yaml_map(yaml@), "cmd-reserve-with-timeout"@),
            s.cmd_delete == yaml_u64(yaml_map(yaml@), "cmd-delete"@),
            s.job_timeouts == yaml_u64(yaml_map(yaml@), "job-timeouts"@),
            s.total_jobs == yaml_u64(yaml_map(yaml@), "total-jobs"@),
            s.rusage_utime@ == yaml_str(yaml_map(yaml@), "rusage-utime"@),
            s.rusage_stime@ == yaml_str(yaml_map(yaml@), "rusage-stime"@),
            s.rusage_maxrss == yaml_u64(yaml_map(yaml@), "rusage-maxrss"@),
            s.draining == yaml_bool(yaml_map(yaml@), "draining"@),
            s.max_job_size == yaml_u64(yaml_map(yaml@), "max-job-size"@),
            s.binlog_enabled == yaml_bool(yaml_map(yaml@), "binlog-enabled"@),
            s.binlog_total_bytes == yaml_u64(yaml_map(yaml@), "binlog-total-bytes"@),
            s.binlog_file_count == yaml_u64(yaml_map(yaml@), "binlog-file-count"@),
            s.binlog_current_index == yaml_u64(yaml_map(yaml@), "binlog-current-index"@),
            s.binlog_oldest_index == yaml_u64(yaml_map(yaml@), "binlog-oldest-index"@),
            s.name@ == yaml_str(yaml_map(yaml@), "name"@),
            s.hostname@ == yaml_str(yaml_map(yaml@), "hostname"@),
            s.os@ == yaml_str(yaml_map(yaml@), "os"@),
            s.platform@ == yaml_str(yaml_map(yaml@), "platform"@),
            s.processing_time_fast_threshold@ == yaml_str(yaml_map(yaml@), "processing-time-fast-threshold"@),
    {
        let m = parse_yaml_map(yaml);
        ServerStats {
            version: get_str(&m, "version"),
            uptime: get_u64(&m, "uptime"),
            current_connections: get_u64(&m, "current-connections"),
            current_producers: get_u64(&m, "current-producers"),
            current_workers: get_u64(&m, "current-workers"),
            current_waiting: get_u64(&m, "current-waiting"),
            current_jobs_ready: get_u64(&m, "current-jobs-ready"),
            current_jobs_reserved: get_u64(&m, "current-jobs-reserved"),
            current_jobs_delayed: get_u64(&m, "current-jobs-delayed"),
            current_jobs_buried: get_u64(&m, "current-jobs-buried"),
            cmd_put: get_u64(&m, "cmd-put"),
            cmd_reserve: get_u64(&m, "cmd-reserve"),
            cmd_reserve_with_timeout: get_u64(&m, "cmd-reserve-with-timeout"),
            cmd_delete: get_u64(&m, "cmd-delete"),
            job_timeouts: get_u64(&m, "job-timeouts"),
            total_jobs: get_u64(&m, "total-jobs"),
            rusage_utime: get_str(&m, "rusage-utime"),
            rusage_stime: get_str(&m, "rusage-stime"),
            rusage_maxrss: get_u64(&m, "rusage-maxrss"),
            draining: get_bool(&m, "draining"),
            max_job_size: get_u64(&m, "max-job-size"),
            binlog_enabled: get_bool(&m, "binlog-enabled"),
            binlog_total_bytes: get_u64(&m, "binlog-total-bytes"),
            binlog_file_count: get_u64(&m, "binlog-file-count"),
            binlog_current_index: get_u64(&m, "binlog-current-index"),
            binlog_oldest_index: get_u64(&m, "binlog-oldest-index"),
            name: get_str(&m, "name"),
            hostname: get_str(&m, "hostname"),
            os: get_str(&m, "os"),
            platform: get_str(&m, "platform"),
            processing_time_fast_threshold: get_str(&m, "processing-time-fast-threshold"),
        }
    }
}

/// Tube statistics (the reply to `stats-tube`).
///
/// The processing and queue times, which the server reports as decimal
/// fractions of a second, are kept as the text the server sent, empty when
/// it sent none.
#[derive(Clone, Debug)]
pub struct TubeStats {
    pub name: String,
    pub current_jobs_urgent: u64,
    pub current_jobs_ready: u64,
    pub current_jobs_reserved: u64,
    pub current_jobs_delayed: u64,
    pub current_jobs_buried: u64,
    pub total_jobs: u64,
    pub total_reserves: u64,
    pub total_timeouts: u64,
    pub processing_time_ewma: String,
    pub processing_time_ewma_fast: String,
    pub processing_time_samples_fast: u64,
    pub processing_time_ewma_slow: String,
    pub processing_time_samples_slow: u64,
    pub processing_time_p50: String,
    pub processing_time_p95: String,
    pub processing_time_p99: String,
    pub queue_time_ewma: String,
    pub cmd_delete: u64,
}

/// The jobs that a tube holds now, in all four states.
pub open spec fn tube_total(t: TubeStats) -> int {
    t.current_jobs_ready + t.current_jobs_reserved + t.current_jobs_delayed + t.current_jobs_buried
}

impl TubeStats {
    /// Whether each field holds what `m` has under the field's key.
    pub open spec fn read_from(&self, m: Map<Seq<char>, Seq<char>>) -> bool {
        &&& self.name@ == yaml_str(m, "name"@)
        &&& self.current_jobs_urgent == yaml_u64(m, "current-jobs-urgent"@)
        &&& self.current_jobs_ready == yaml_u64(m, "current-jobs-ready"@)
        &&& self.current_jobs_reserved == yaml_u64(m, "current-jobs-reserved"@)
        &&& self.current_jobs_delayed == yaml_u64(m, "current-jobs-delayed"@)
        &&& self.current_jobs_buried == yaml_u64(m, "current-jobs-buried"@)
        &&& self.total_jobs == yaml_u64(m, "total-jobs"@)
        &&& self.total_reserves == yaml_u64(m, "cmd-reserve-with-timeout"@)
        &&& self.total_timeouts == yaml_u64(m, "total-timeouts"@)
        &&& self.processing_time_ewma@ == yaml_str(m, "processing-time-ewma"@)
        &&& self.processing_time_ewma_fast@ == yaml_str(m, "processing-time-ewma-fast"@)
        &&& self.processing_time_samples_fast == yaml_u64(m, "processing-time-samples-fast"@)
        &&& self.processing_time_ewma_slow@ == yaml_str(m, "processing-time-ewma-slow"@)
        &&& self.processing_time_samples_slow == yaml_u64(m, "processing-time-samples-slow"@)
        &&& self.processing_time_p50@ == yaml_str(m, "processing-time-p50"@)
        &&& self.processing_time_p95@ == yaml_str(m, "processing-time-p95"@)
        &&& self.processing_time_p99@ == yaml_str(m, "processing-time-p99"@)
        &&& self.queue_time_ewma@ == yaml_str(m, "queue-time-ewma"@)
        &&& self.cmd_delete == yaml_u64(m, "cmd-delete"@)
    }

    /// The jobs that the tube holds now: ready, reserved, delayed and buried.
    pub fn current_total(&self) -> (n: u64)
        requires
            tube_total(*self) <= u64::MAX,
        ensures
            n == tube_total(*self),
    {
        self.current_jobs_ready + self.current_jobs_reserved + self.current_jobs_delayed
            + self.current_jobs_buried
    }

    /// Whether the four job counts add up to a `u64`.
    pub fn total_fits(&self) -> (b: bool)
        ensures
            b == (tube_total(*self) <= u64::MAX),
    {
        let a = self.current_jobs_ready as u128 + self.current_jobs_reserved as u128;
        let b = a + self.current_jobs_delayed as u128 + self.current_jobs_buried as u128;
        b <= u64::MAX as u128
    }

    /// Reads tube statistics from the YAML body of a `stats-tube` reply.
    pub fn from_yaml(yaml: &str) -> (t: Self)
        ensures
            t.read_from(yaml_map(yaml@)),
            t.name@ == yaml_str(yaml_map(yaml@), "name"@),
            t.current_jobs_urgent == yaml_u64(yaml_map(yaml@), "current-jobs-urgent"@),
            t.current_jobs_ready == yaml_u64(yaml_map(yaml@), "current-jobs-ready"@),
            t.current_jobs_reserved == yaml_u64(yaml_map(yaml@), "current-jobs-reserved"@),
            t.current_jobs_delayed == yaml_u64(yaml_map(yaml@), "current-jobs-delayed"@),
            t.current_jobs_buried == yaml_u64(yaml_map(yaml@), "current-jobs-buried"@),
            t.total_jobs == yaml_u64(yaml_map(yaml@), "total-jobs"@),
            t.total_reserves == yaml_u64(yaml_map(yaml@), "cmd-reserve-with-timeout"@),
            t.total_timeouts == yaml_u64(yaml_map(yaml@), "total-timeouts"@),
            t.processing_time_ewma@ == yaml_str(yaml_map(yaml@), "processing-time-ewma"@),
            t.processing_time_ewma_fast@ == yaml_str(yaml_map(yaml@), "processing-time-ewma-fast"@),
            t.processing_time_samples_fast == yaml_u64(yaml_map(yaml@), "processing-time-samples-fast"@),
            t.processing_time_ewma_slow@ == yaml_str(yaml_map(yaml@), "processing-time-ewma-slow"@),
            t.processing_time_samples_slow == yaml_u64(yaml_map(yaml@), "processing-time-samples-slow"@),
            t.processing_time_p50@ == yaml_str(yaml_map(yaml@), "processing-time-p50"@),
            t.processing_time_p95@ == yaml_str(yaml_map(yaml@), "processing-time-p95"@),
            t.processing_time_p99@ == yaml_str(yaml_map(yaml@), "processing-time-p99"@),
            t.queue_time_ewma@ == yaml_str(yaml_map(yaml@), "queue-time-ewma"@),
            t.cmd_delete == yaml_u64(yaml_map(yaml@), "cmd-delete"@),
    {
        let m = parse_yaml_map(yaml);
        TubeStats {
            name: get_str(&m, "name"),
            current_jobs_urgent: get_u64(&m, "current-jobs-urgent"),
            current_jobs_ready: get_u64(&m, "current-jobs-ready"),
            current_jobs_reserved: get_u64(&m, "current-jobs-reserved"),
            current_jobs_delayed: get_u64(&m, "current-jobs-delayed"),
            current_jobs_buried: get_u64(&m, "current-jobs-buried"),
            total_jobs: get_u64(&m, "total-jobs"),
            total_reserves: get_u64(&m, "cmd-reserve-with-timeout"),
            total_timeouts: get_u64(&m, "total-timeouts"),
            processing_time_ewma: get_str(&m, "processing-time-ewma"),
            processing_time_ewma_fast: get_str(&m, "processing-time-ewma-fast"),
            processing_time_samples_fast: get_u64(&m, "processing-time-samples-fast"),
            processing_time_ewma_slow: get_str(&m, "processing-time-ewma-slow"),
            processing_time_samples_slow: get_u64(&m, "processing-time-samples-slow"),
            processing_time_p50: get_str(&m, "processing-time-p50"),
            processing_time_p95: get_str(&m, "processing-time-p95"),
            processing_time_p99: get_str(&m, "processing-time-p99"),
            queue_time_ewma: get_str(&m, "queue-time-ewma"),
            cmd_delete: get_u64(&m, "cmd-delete"),
        }
    }
}

/// Job statistics (the reply to `stats-job`).
#[derive(Clone, Debug)]
pub struct JobStats {
    pub id: u64,
    pub tube: String,
    pub state: String,
    pub pri: u64,
    pub age: u64,
    pub delay: u64,
    pub ttr: u64,
    pub time_left: u64,
    pub time_reserved: u64,
    pub reserves: u64,
    pub timeouts: u64,
    pub releases: u64,
    pub buries: u64,
    pub kicks: u64,
    pub idempotency_key: String,
    pub idempotency_ttl: u64,
    pub group: String,
    pub after_group: String,
    pub concurrency_key: String,
    pub concurrency_limit: u64,
    pub file: u64,
}

impl JobStats {
    /// Whether each field holds what `m` has under the field's key.
    pub open spec fn read_from(&self, m: Map<Seq<char>, Seq<char>>) -> bool {
        &&& self.id == yaml_u64(m, "id"@)
        &&& self.tube@ == yaml_str(m, "tube"@)
        &&& self.state@ == yaml_str(m, "state"@)
        &&& self.pri == yaml_u64(m, "pri"@)
        &&& self.age == yaml_u64(m, "age"@)
        &&& self.delay == yaml_u64(m, "delay"@)
        &&& self.ttr == yaml_u64(m, "ttr"@)
        &&& self.time_left == yaml_u64(m, "time-left"@)
        &&& self.time_reserved == yaml_u64(m, "time-reserved"@)
        &&& self.reserves == yaml_u64(m, "reserves"@)
        &&& self.timeouts == yaml_u64(m, "timeouts"@)
        &&& self.releases == yaml_u64(m, "releases"@)
        &&& self.buries == yaml_u64(m, "buries"@)
        &&& self.kicks == yaml_u64(m, "kicks"@)
        &&& self.idempotency_key@ == yaml_str(m, "idempotency-key"@)
        &&& self.idempotency_ttl == yaml_u64(m, "idempotency-ttl"@)
        &&& self.group@ == yaml_str(m, "group"@)
        &&& self.after_group@ == yaml_str(m, "after-group"@)
        &&& self.concurrency_key@ == yaml_str(m, "concurrency-key"@)
        &&& self.concurrency_limit == yaml_u64(m, "concurrency-limit"@)
        &&& self.file == yaml_u64(m, "file"@)
    }

    /// Reads job statistics from the YAML body of a `stats-job` reply.
    pub fn from_yaml(yaml: &str) -> (j: Self)
        ensures
            j.read_from(yaml_map(yaml@)),
            j.id == yaml_u64(yaml_map(yaml@), "id"@),
            j.tube@ == yaml_str(yaml_map(yaml@), "tube"@),
            j.state@ == yaml_str(yaml_map(yaml@), "state"@),
            j.pri == yaml_u64(yaml_map(yaml@), "pri"@),
            j.age == yaml_u64(yaml_map(yaml@), "age"@),
            j.delay == yaml_u64(yaml_map(yaml@), "delay"@),
            j.ttr == yaml_u64(yaml_map(yaml@), "ttr"@),
            j.time_left == yaml_u64(yaml_map(yaml@), "time-left"@),
            j.time_reserved == yaml_u64(yaml_map(yaml@), "time-reserved"@),
            j.reserves == yaml_u64(yaml_map(yaml@), "reserves"@),
            j.timeouts == yaml_u64(yaml_map(yaml@), "timeouts"@),
            j.releases == yaml_u64(yaml_map(yaml@), "releases"@),
            j.buries == yaml_u64(yaml_map(yaml@), "buries"@),
            j.kicks == yaml_u64(yaml_map(yaml@), "kicks"@),
            j.idempotency_key@ == yaml_str(yaml_map(yaml@), "idempotency-key"@),
            j.idempotency_ttl == yaml_u64(yaml_map(yaml@), "idempotency-ttl"@),
            j.group@ == yaml_str(yaml_map(yaml@), "group"@),
            j.after_group@ == yaml_str(yaml_map(yaml@), "after-group"@),
            j.concurrency_key@ == yaml_str(yaml_map(yaml@), "concurrency-key"@),
            j.concurrency_limit == yaml_u64(yaml_map(yaml@), "concurrency-limit"@),
            j.file == yaml_u64(yaml_map(yaml@), "file"@),
    {
        let m = parse_yaml_map(yaml);
        JobStats {
            id: get_u64(&m, "id"),
            tube: get_str(&m, "tube"),
            state: get_str(&m, "state"),
            pri: get_u64(&m, "pri"),
            age: get_u64(&m, "age"),
            delay: get_u64(&m, "delay"),
            ttr: get_u64(&m, "ttr"),
            time_left: get_u64(&m, "time-left"),
            time_reserved: get_u64(&m, "time-reserved"),
            reserves: get_u64(&m, "reserves"),
            timeouts: get_u64(&m, "timeouts"),
            releases: get_u64(&m, "releases"),
            buries: get_u64(&m, "buries"),
            kicks: get_u64(&m, "kicks"),
            idempotency_key: get_str(&m, "idempotency-key"),
            idempotency_ttl: get_u64(&m, "idempotency-ttl"),
            group: get_str(&m, "group"),
            after_group: get_str(&m, "after-group"),
            concurrency_key: get_str(&m, "concurrency-key"),
            concurrency_limit: get_u64(&m, "concurrency-limit"),
            file: get_u64(&m, "file"),
        }
    }
}

/// Job group statistics (the reply to `stats-group`).
#[derive(Clone, Debug)]
pub struct GroupStats {
    pub name: String,
    pub pending: u64,
    pub buried: u64,
    pub complete: bool,
    pub waiting_jobs: u64,
}

impl GroupStats {
    /// Whether each field holds what `m` has under the field's key.
    pub open spec fn read_from(&self, m: Map<Seq<char>, Seq<char>>) -> bool {
        &&& self.name@ == yaml_str(m, "name"@)
        &&& self.pending == yaml_u64(m, "pending"@)
        &&& self.buried == yaml_u64(m, "buried"@)
        &&& self.complete == yaml_bool(m, "complete"@)
        &&& self.waiting_jobs == yaml_u64(m, "waiting-jobs"@)
    }

    /// Reads group statistics from the YAML body of a `stats-group` reply.
    pub fn from_yaml(yaml: &str) -> (g: Self)
        ensures
            g.read_from(yaml_map(yaml@)),
            g.name@ == yaml_str(yaml_map(yaml@), "name"@),
            g.pending == yaml_u64(yaml_map(yaml@), "pending"@),
            g.buried == yaml_u64(yaml_map(yaml@), "buried"@),
            g.complete == yaml_bool(yaml_map(yaml@), "complete"@),
            g.waiting_jobs == yaml_u64(yaml_map(yaml@), "waiting-jobs"@),
    {
        let m = parse_yaml_map(yaml);
        GroupStats {
            name: get_str(&m, "name"),
            pending: get_u64(&m, "pending"),
            buried: get_u64(&m, "buried"),
            complete: get_bool(&m, "complete"),
            waiting_jobs: get_u64(&m, "waiting-jobs"),
        }
    }
}

/// The server's statistics and those of each of its tubes, taken at one
/// time.
#[derive(Clone, Debug)]
pub struct Snapshot {
    pub server: ServerStats,
    pub tubes: Vec<TubeStats>,
    pub fetched_at: std::time::Instant,
}

/// Each tube paired with its total jobs count.
pub open spec fn keyed_by_total_jobs(tubes: Seq<TubeStats>) -> Seq<(u64, TubeStats)> {
    tubes.map_values(|t: TubeStats| (t.total_jobs, t))
}

/// Whether a tube's total jobs count is `k`.
pub open spec fn total_jobs_is(k: u64) -> spec_fn(TubeStats) -> bool {
    |t: TubeStats| t.total_jobs == k
}

proof fn lemma_keyed_items(s: Seq<(u64, TubeStats)>, k: u64)
    requires
        forall|i: int| 0 <= i < s.len() ==> #[trigger] s[i].0 == s[i].1.total_jobs,
    ensures
        items_of(with_key(s, k)) == items_of(s).filter(total_jobs_is(k)),
    decreases s.len(),
{
    reveal(Seq::filter);
    if s.len() > 0 {
        let init = s.drop_last();
        assert forall|i: int| 0 <= i < init.len() implies #[trigger] init[i].0 == init[i].1.total_jobs by {
            assert(init[i] == s[i]);
        }
        lemma_keyed_items(init, k);
        assert(items_of(s).drop_last() =~= items_of(init));
        assert(s.last() == s[s.len() - 1]);
        assert(items_of(s).last() == s.last().1);
        if s.last().0 == k {
            assert(items_of(with_key(init, k).push(s.last())) =~= items_of(with_key(init, k)).push(
                s.last().1,
            ));
        }
    } else {
        assert(items_of(with_key(s, k)) =~= items_of(s));
    }
}

/// Ordering tubes by total jobs keeps every tube and nothing else, puts
/// larger totals first, and keeps tubes with equal totals in the order
/// they came in.
pub proof fn law_sort_by_total_jobs(tubes: Seq<TubeStats>)
    ensures
        ({
            let out = items_of(sort_desc(keyed_by_total_jobs(tubes)));
            &&& out.to_multiset() == tubes.to_multiset()
            &&& forall|a: int, b: int|
                0 <= a < b < out.len() ==> #[trigger] out[a].total_jobs >= #[trigger] out[b].total_jobs
            &&& forall|k: u64| #[trigger] out.filter(total_jobs_is(k)) == tubes.filter(total_jobs_is(k))
        }),
{
    broadcast use vstd::seq_lib::group_to_multiset_ensures;
    let keyed = keyed_by_total_jobs(tubes);
    let r = sort_desc(keyed);
    let out = items_of(r);
    law_sort_desc(keyed);
    assert forall|i: int| 0 <= i < keyed.len() implies #[trigger] keyed[i].0 == keyed[i].1.total_jobs by {}
    assert forall|i: int| 0 <= i < r.len() implies #[trigger] r[i].0 == r[i].1.total_jobs by {
        assert(r.contains(r[i]));
        assert(r.to_multiset().count(r[i]) > 0);
        assert(keyed.contains(r[i]));
        let j = choose|j: int| 0 <= j < keyed.len() && keyed[j] == r[i];
        assert(keyed[j].0 == keyed[j].1.total_jobs);
    }
    assert(items_of(keyed) =~= tubes);
    lemma_items_of_to_multiset(r, keyed);
    assert forall|a: int, b: int| 0 <= a < b < out.len() implies #[trigger] out[a].total_jobs
        >= #[trigger] out[b].total_jobs by {
        assert(r[a].0 >= r[b].0);
    }
    assert forall|k: u64| #[trigger] out.filter(total_jobs_is(k)) == tubes.filter(total_jobs_is(k)) by {
        lemma_keyed_items(r, k);
        lemma_keyed_items(keyed, k);
        assert(with_key(r, k) == with_key(keyed, k));
    }
}

/// Orders tubes by their total jobs count, largest first; tubes with equal
/// counts keep their order.
pub fn sort_by_total_jobs(tubes: Vec<TubeStats>) -> (out: Vec<TubeStats>)
    ensures
        out@ == items_of(sort_desc(keyed_by_total_jobs(tubes@))),
        out@.to_multiset() == tubes@.to_multiset(),
        forall|a: int, b: int|
            0 <= a < b < out@.len() ==> #[trigger] out@[a].total_jobs >= #[trigger] out@[b].total_jobs,
        forall|k: u64| #[trigger] out@.filter(total_jobs_is(k)) == tubes@.filter(total_jobs_is(k)),
{
    proof {
        law_sort_by_total_jobs(tubes@);
    }
    let ghost all = tubes@;
    let mut rest = tubes;
    let mut keyed: Vec<(u64, TubeStats)> = Vec::new();
    let ghost mut i: int = 0;
    proof {
        assert(all.skip(0) =~= all);
    }
    while rest.len() > 0
        invariant
            0 <= i <= all.len(),
            rest@ == all.skip(i),
            keyed@ =~= keyed_by_total_jobs(all.take(i)),
        decreases rest@.len(),
    {
        let t = rest.remove(0);
        proof {
            assert(all.skip(i).drop_first() =~= all.skip(i + 1));
            assert(all.take(i + 1) =~= all.take(i).push(t));
        }
        keyed.push((t.total_jobs, t));
        proof {
            i = i + 1;
        }
    }
    proof {
        assert(all.take(i) =~= all);
    }
    into_items(sort_by_key_desc(keyed))
}

/// The positions of `tubes`, ordered by the jobs each tube holds now,
/// largest first; tubes with equal totals keep their order.
pub open spec fn keyed_by_current_total(tubes: Seq<TubeStats>) -> Seq<(u64, usize)> {
    Seq::new(tubes.len(), |i: int| (tube_total(tubes[i]) as u64, i as usize))
}

/// The chart order holds each position of `tubes` once, puts tubes that
/// hold more jobs now (ready, reserved, delayed and buried) first, and
/// tubes that hold equally many in the order of their positions.
pub proof fn law_chart_order(tubes: Seq<TubeStats>)
    requires
        tubes.len() <= usize::MAX,
        forall|i: int| 0 <= i < tubes.len() ==> tube_total(#[trigger] tubes[i]) <= u64::MAX,
    ensures
        ({
            let order = items_of(sort_desc(keyed_by_current_total(tubes)));
            &&& order.len() == tubes.len()
            &&& forall|a: int| 0 <= a < order.len() ==> (#[trigger] order[a]) < tubes.len()
            &&& forall|a: int, b: int| 0 <= a < b < order.len() ==> #[trigger] order[a] != #[trigger] order[b]
            &&& forall|a: int, b: int|
                0 <= a < b < order.len() ==> ({
                    let x = tubes[#[trigger] order[a] as int];
                    let y = tubes[#[trigger] order[b] as int];
                    x.current_jobs_ready + x.current_jobs_reserved + x.current_jobs_delayed
                        + x.current_jobs_buried >= y.current_jobs_ready + y.current_jobs_reserved
                        + y.current_jobs_delayed + y.current_jobs_buried
                })
            &&& forall|a: int, b: int|
                0 <= a < b < order.len() ==> ({
                    let x = tubes[#[trigger] order[a] as int];
                    let y = tubes[#[trigger] order[b] as int];
                    x.current_jobs_ready + x.current_jobs_reserved + x.current_jobs_delayed
                        + x.current_jobs_buried == y.current_jobs_ready + y.current_jobs_reserved
                        + y.current_jobs_delayed + y.current_jobs_buried ==> order[a] < order[b]
                })
        }),
{
    let k = keyed_by_current_total(tubes);
    let r = sort_desc(k);
    let order = items_of(r);
    assert forall|i: int| 0 <= i < k.len() implies #[trigger] k[i].1 == i by {}
    lemma_sort_positions(k);
    law_sort_desc(k);
    assert forall|a: int| 0 <= a < r.len() implies #[trigger] r[a].0 == tube_total(tubes[r[a].1 as int]) by {
        assert(r[a] == k[r[a].1 as int]);
    }
    assert forall|a: int, b: int| 0 <= a < b < order.len() implies #[trigger] order[a] != #[trigger] order[b] by {
        assert(r[a].1 != r[b].1);
    }
    assert forall|a: int, b: int| 0 <= a < b < order.len() implies ({
        let x = tubes[#[trigger] order[a] as int];
        let y = tubes[#[trigger] order[b] as int];
        x.current_jobs_ready + x.current_jobs_reserved + x.current_jobs_delayed
            + x.current_jobs_buried >= y.current_jobs_ready + y.current_jobs_reserved
            + y.current_jobs_delayed + y.current_jobs_buried
    }) by {
        assert(r[a].0 >= r[b].0);
        assert(r[a].0 == tube_total(tubes[r[a].1 as int]));
        assert(r[b].0 == tube_total(tubes[r[b].1 as int]));
    }
    assert forall|a: int, b: int| 0 <= a < b < order.len() implies ({
        let x = tubes[#[trigger] order[a] as int];
        let y = tubes[#[trigger] order[b] as int];
        x.current_jobs_ready + x.current_jobs_reserved + x.current_jobs_delayed
            + x.current_jobs_buried == y.current_jobs_ready + y.current_jobs_reserved
            + y.current_jobs_delayed + y.current_jobs_buried ==> order[a] < order[b]
    }) by {
        assert(r[a].0 == tube_total(tubes[r[a].1 as int]));
        assert(r[b].0 == tube_total(tubes[r[b].1 as int]));
        if r[a].0 == r[b].0 {
            assert(r[a].1 < r[b].1);
        }
    }
    assert forall|a: int| 0 <= a < order.len() implies (#[trigger] order[a]) < tubes.len() by {
        assert(r[a].1 < k.len());
    }
}

/// The order in which to chart `tubes`: their positions, by the jobs each
/// holds now, largest first.
pub fn chart_order(tubes: &Vec<TubeStats>) -> (order: Vec<usize>)
    requires
        forall|i: int| 0 <= i < tubes@.len() ==> tube_total(#[trigger] tubes@[i]) <= u64::MAX,
    ensures
        order@ == items_of(sort_desc(keyed_by_current_total(tubes@))),
        ({
            let tubes = tubes@;
            &&& order@.len() == tubes.len()
            &&& forall|a: int| 0 <= a < order@.len() ==> (#[trigger] order@[a]) < tubes.len()
            &&& forall|a: int, b: int| 0 <= a < b < order@.len() ==> #[trigger] order@[a] != #[trigger] order@[b]
            &&& forall|a: int, b: int|
                0 <= a < b < order@.len() ==> ({
                    let x = tubes[#[trigger] order@[a] as int];
                    let y = tubes[#[trigger] order@[b] as int];
                    x.current_jobs_ready + x.current_jobs_reserved + x.current_jobs_delayed
                        + x.current_jobs_buried >= y.current_jobs_ready + y.current_jobs_reserved
                        + y.current_jobs_delayed + y.current_jobs_buried
                })
            &&& forall|a: int, b: int|
                0 <= a < b < order@.len() ==> ({
                    let x = tubes[#[trigger] order@[a] as int];
                    let y = tubes[#[trigger] order@[b] as int];
                    x.current_jobs_ready + x.current_jobs_reserved + x.current_jobs_delayed
                        + x.current_jobs_buried == y.current_jobs_ready + y.current_jobs_reserved
                        + y.current_jobs_delayed + y.current_jobs_buried ==> order@[a] < order@[b]
                })
        }),
{
    let n = tubes.len();
    proof {
        law_chart_order(tubes@);
    }
    let mut keyed: Vec<(u64, usize)> = Vec::new();
    for i in 0..n
        invariant
            n == tubes@.len(),
            forall|k: int| 0 <= k < tubes@.len() ==> tube_total(#[trigger] tubes@[k]) <= u64::MAX,
            keyed@ =~= keyed_by_current_total(tubes@).take(i as int),
    {
        let total = tubes[i].current_total();
        keyed.push((total, i));
    }
    proof {
        assert(keyed_by_current_total(tubes@).take(n as int) =~= keyed_by_current_total(tubes@));
    }
    into_items(sort_by_key_desc(keyed))
}

/// The buried jobs of all `tubes` together.
pub open spec fn buried_sum(tubes: Seq<TubeStats>) -> int
    decreases tubes.len(),
{
    if tubes.len() == 0 {
        0
    } else {
        buried_sum(tubes.drop_last()) + tubes.last().current_jobs_buried
    }
}

proof fn lemma_buried_sum_prefix(tubes: Seq<TubeStats>, j: int)
    requires
        0 <= j <= tubes.len(),
    ensures
        buried_sum(tubes.take(j)) <= buried_sum(tubes),
    decreases tubes.len(),
{
    if j < tubes.len() {
        assert(tubes.drop_last().take(j) =~= tubes.take(j));
        lemma_buried_sum_prefix(tubes.drop_last(), j);
    } else {
        assert(tubes.take(j) =~= tubes);
    }
}

/// The buried jobs of tubes together: none of no tube, a tube's own
/// buried jobs, and those of two lists of tubes joined added up.
pub proof fn law_buried_sum(a: Seq<TubeStats>, b: Seq<TubeStats>, t: TubeStats)
    ensures
        buried_sum(Seq::<TubeStats>::empty()) == 0,
        buried_sum(seq![t]) == t.current_jobs_buried,
        buried_sum(a + b) == buried_sum(a) + buried_sum(b),
    decreases b.len(),
{
    assert(seq![t].drop_last() =~= Seq::<TubeStats>::empty());
    assert(seq![t].last() == t);
    if b.len() == 0 {
        assert(a + b =~= a);
    } else {
        law_buried_sum(a, b.drop_last(), t);
        assert((a + b).drop_last() =~= a + b.drop_last());
        assert((a + b).last() == b.last());
    }
}

/// The buried jobs of all `tubes` together, or `None` when they add up
/// to more than a `u64` holds.
pub fn buried_total(tubes: &Vec<TubeStats>) -> (r: Option<u64>)
    ensures
        match r {
            Some(n) => n == buried_sum(tubes@),
            None => buried_sum(tubes@) > u64::MAX,
        },
{
    let n = tubes.len();
    let mut sum: u64 = 0;
    for i in 0..n
        invariant
            n == tubes@.len(),
            sum == buried_sum(tubes@.take(i as int)),
    {
        assert(tubes@.take(i + 1).drop_last() =~= tubes@.take(i as int));
        match sum.checked_add(tubes[i].current_jobs_buried) {
            Some(s) => {
                sum = s;
            },
            None => {
                proof {
                    lemma_buried_sum_prefix(tubes@, i + 1);
                }
                return None;
            },
        }
    }
    assert(tubes@.take(n as int) =~= tubes@);
    Some(sum)
}

impl Snapshot {
    /// Whether the job counts of every tube add up to a `u64`.
    pub fn totals_fit(&self) -> (b: bool)
        ensures
            b == forall|i: int| 0 <= i < self.tubes@.len() ==> tube_total(#[trigger] self.tubes@[i]) <= u64::MAX,
    {
        let n = self.tubes.len();
        for i in 0..n
            invariant
                n == self.tubes@.len(),
                forall|k: int| 0 <= k < i ==> tube_total(#[trigger] self.tubes@[k]) <= u64::MAX,
        {
            if !self.tubes[i].total_fits() {
                return false;
            }
        }
        true
    }
}

} // verus!
