use vstd::prelude::*;

use crate::text::{nat_decimal, push_str, push_u64_decimal, string_of};

verus! {

/// Counters of the server's activity, for the Prometheus scrape endpoint.
#[derive(Debug, Clone)]
pub struct MetricsRegistry {
    pub start_secs: u64,
    pub http_requests_total: u64,
    pub http_requests_2xx: u64,
    pub http_requests_4xx: u64,
    pub http_requests_5xx: u64,
    pub sql_queries_total: u64,
    pub sql_queries_success: u64,
    pub sql_queries_failed: u64,
    pub auth_attempts_total: u64,
    pub auth_failures_total: u64,
    pub realtime_events_broadcast_total: u64,
}

/// A counter after one more event; counters wrap around at 2^64.
pub open spec fn bump(c: u64) -> u64 {
    if c == u64::MAX {
        0
    } else {
        (c + 1) as u64
    }
}

impl MetricsRegistry {
    /// A registry with every counter at zero, started at `start_secs`.
    pub fn started_at(start_secs: u64) -> (m: Self)
        ensures
            m.start_secs == start_secs,
            m.http_requests_total == 0 && m.http_requests_2xx == 0 && m.http_requests_4xx == 0
                && m.http_requests_5xx == 0,
            m.sql_queries_total == 0 && m.sql_queries_success == 0 && m.sql_queries_failed == 0,
            m.auth_attempts_total == 0 && m.auth_failures_total == 0,
            m.realtime_events_broadcast_total == 0,
    {
        MetricsRegistry {
            start_secs,
            http_requests_total: 0,
            http_requests_2xx: 0,
            http_requests_4xx: 0,
            http_requests_5xx: 0,
            sql_queries_total: 0,
            sql_queries_success: 0,
            sql_queries_failed: 0,
            auth_attempts_total: 0,
            auth_failures_total: 0,
            realtime_events_broadcast_total: 0,
        }
    }

    /// The process-wide registry's initial state: every counter at zero, started now.
    pub fn global() -> (m: Self)
        ensures
            m.http_requests_total == 0 && m.sql_queries_total == 0 && m.auth_attempts_total == 0
                && m.realtime_events_broadcast_total == 0,
            m.http_requests_2xx == 0 && m.http_requests_4xx == 0 && m.http_requests_5xx == 0,
            m.sql_queries_success == 0 && m.sql_queries_failed == 0 && m.auth_failures_total == 0,
    {
        MetricsRegistry::started_at(crate::time::now_secs())
    }

    /// Counts an HTTP request and its status class (2xx, 4xx or 5xx).
    pub fn record_http_request(&mut self, status: u16)
        ensures
            final(self).http_requests_total == bump(old(self).http_requests_total),
            final(self).http_requests_2xx == if 200 <= status <= 299 {
                bump(old(self).http_requests_2xx)
            } else {
                old(self).http_requests_2xx
            },
            final(self).http_requests_4xx == if 400 <= status <= 499 {
                bump(old(self).http_requests_4xx)
            } else {
                old(self).http_requests_4xx
            },
            final(self).http_requests_5xx == if 500 <= status <= 599 {
                bump(old(self).http_requests_5xx)
            } else {
                old(self).http_requests_5xx
            },
            final(self).start_secs == old(self).start_secs,
            final(self).sql_queries_total == old(self).sql_queries_total,
            final(self).sql_queries_success == old(self).sql_queries_success,
            final(self).sql_queries_failed == old(self).sql_queries_failed,
            final(self).auth_attempts_total == old(self).auth_attempts_total,
            final(self).auth_failures_total == old(self).auth_failures_total,
            final(self).realtime_events_broadcast_total == old(self).realtime_events_broadcast_total,
    {
        self.http_requests_total = self.http_requests_total.wrapping_add(1);
        if 200 <= status && status <= 299 {
            self.http_requests_2xx = self.http_requests_2xx.wrapping_add(1);
        } else if 400 <= status && status <= 499 {
            self.http_requests_4xx = self.http_requests_4xx.wrapping_add(1);
        } else if 500 <= status && status <= 599 {
            self.http_requests_5xx = self.http_requests_5xx.wrapping_add(1);
        }
    }

    /// Counts an SQL query and whether it succeeded.
    pub fn record_sql_query(&mut self, success: bool)
        ensures
            final(self).sql_queries_total == bump(old(self).sql_queries_total),
            final(self).sql_queries_success == if success {
                bump(old(self).sql_queries_success)
            } else {
                old(self).sql_queries_success
            },
            final(self).sql_queries_failed == if success {
                old(self).sql_queries_failed
            } else {
                bump(old(self).sql_queries_failed)
            },
            final(self).start_secs == old(self).start_secs,
            final(self).http_requests_total == old(self).http_requests_total,
            final(self).http_requests_2xx == old(self).http_requests_2xx,
            final(self).http_requests_4xx == old(self).http_requests_4xx,
            final(self).http_requests_5xx == old(self).http_requests_5xx,
            final(self).auth_attempts_total == old(self).auth_attempts_total,
            final(self).auth_failures_total == old(self).auth_failures_total,
            final(self).realtime_events_broadcast_total == old(self).realtime_events_broadcast_total,
    {
        self.sql_queries_total = self.sql_queries_total.wrapping_add(1);
        if success {
            self.sql_queries_success = self.sql_queries_success.wrapping_add(1);
        } else {
            self.sql_queries_failed = self.sql_queries_failed.wrapping_add(1);
        }
    }

    /// Counts an authentication attempt, and a failure when it did not succeed.
    pub fn record_auth_attempt(&mut self, success: bool)
        ensures
            final(self).auth_attempts_total == bump(old(self).auth_attempts_total),
            final(self).auth_failures_total == if success {
                old(self).auth_failures_total
            } else {
                bump(old(self).auth_failures_total)
            },
            final(self).start_secs == old(self).start_secs,
            final(self).http_requests_total == old(self).http_requests_total,
            final(self).http_requests_2xx == old(self).http_requests_2xx,
            final(self).http_requests_4xx == old(self).http_requests_4xx,
            final(self).http_requests_5xx == old(self).http_requests_5xx,
            final(self).sql_queries_total == old(self).sql_queries_total,
            final(self).sql_queries_success == old(self).sql_queries_success,
            final(self).sql_queries_failed == old(self).sql_queries_failed,
            final(self).realtime_events_broadcast_total == old(self).realtime_events_broadcast_total,
    {
        self.auth_attempts_total = self.auth_attempts_total.wrapping_add(1);
        if !success {
            self.auth_failures_total = self.auth_failures_total.wrapping_add(1);
        }
    }

    /// Counts a realtime event sent to subscribers.
    pub fn record_realtime_broadcast(&mut self)
        ensures
            final(self).realtime_events_broadcast_total == bump(
                old(self).realtime_events_broadcast_total,
            ),
            final(self).start_secs == old(self).start_secs,
            final(self).http_requests_total == old(self).http_requests_total,
            final(self).http_requests_2xx == old(self).http_requests_2xx,
            final(self).http_requests_4xx == old(self).http_requests_4xx,
            final(self).http_requests_5xx == old(self).http_requests_5xx,
            final(self).sql_queries_total == old(self).sql_queries_total,
            final(self).sql_queries_success == old(self).sql_queries_success,
            final(self).sql_queries_failed == old(self).sql_queries_failed,
            final(self).auth_attempts_total == old(self).auth_attempts_total,
            final(self).auth_failures_total == old(self).auth_failures_total,
    {
        self.realtime_events_broadcast_total = self.realtime_events_broadcast_total.wrapping_add(1);
    }
}

/// A counter line: the metric and its value.
pub open spec fn metric_line(name: Seq<char>, v: u64) -> Seq<char> {
    name + seq![' '] + nat_decimal(v as nat) + seq!['\n']
}

/// The Prometheus text exposition of the counters, after `uptime` seconds.
pub open spec fn prometheus_text(m: MetricsRegistry, uptime: u64) -> Seq<char> {
    "# HELP chocobase_uptime_seconds Database engine uptime in seconds.\n"@
        + "# TYPE chocobase_uptime_seconds gauge\n"@ + metric_line("chocobase_uptime_seconds"@, uptime)
        + "\n"@ + "# HELP chocobase_http_requests_total Total number of HTTP requests processed.\n"@
        + "# TYPE chocobase_http_requests_total counter\n"@ + metric_line(
        "chocobase_http_requests_total"@,
        m.http_requests_total,
    ) + metric_line("chocobase_http_requests_total{status=\"2xx\"}"@, m.http_requests_2xx)
        + metric_line("chocobase_http_requests_total{status=\"4xx\"}"@, m.http_requests_4xx)
        + metric_line("chocobase_http_requests_total{status=\"5xx\"}"@, m.http_requests_5xx) + "\n"@
        + "# HELP chocobase_sql_queries_total Total number of executed SQL queries.\n"@
        + "# TYPE chocobase_sql_queries_total counter\n"@ + metric_line(
        "chocobase_sql_queries_total"@,
        m.sql_queries_total,
    ) + metric_line("chocobase_sql_queries_total{status=\"success\"}"@, m.sql_queries_success)
        + metric_line("chocobase_sql_queries_total{status=\"failed\"}"@, m.sql_queries_failed)
        + "\n"@ + "# HELP chocobase_auth_attempts_total Total authentication attempts.\n"@
        + "# TYPE chocobase_auth_attempts_total counter\n"@ + metric_line(
        "chocobase_auth_attempts_total"@,
        m.auth_attempts_total,
    ) + metric_line("chocobase_auth_failures_total"@, m.auth_failures_total) + "\n"@
        + "# HELP chocobase_realtime_events_broadcast_total Total realtime events dispatched.\n"@
        + "# TYPE chocobase_realtime_events_broadcast_total counter\n"@ + metric_line(
        "chocobase_realtime_events_broadcast_total"@,
        m.realtime_events_broadcast_total,
    )
}

fn push_metric(out: &mut Vec<char>, name: &str, v: u64)
    ensures
        final(out)@ == old(out)@ + metric_line(name@, v),
{
    push_str(out, name);
    out.push(' ');
    push_u64_decimal(out, v);
    out.push('\n');
    assert(out@ =~= old(out)@ + metric_line(name@, v));
}

impl MetricsRegistry {
    /// The Prometheus exposition after `uptime` seconds of running.
    pub fn render_prometheus_at(&self, uptime: u64) -> (s: String)
        ensures
            s@ == prometheus_text(*self, uptime),
    {
        let mut out: Vec<char> = Vec::new();
        push_str(&mut out, "# HELP chocobase_uptime_seconds Database engine uptime in seconds.\n");
        push_str(&mut out, "# TYPE chocobase_uptime_seconds gauge\n");
        push_metric(&mut out, "chocobase_uptime_seconds", uptime);
        push_str(&mut out, "\n");
        push_str(
            &mut out,
            "# HELP chocobase_http_requests_total Total number of HTTP requests processed.\n",
        );
        push_str(&mut out, "# TYPE chocobase_http_requests_total counter\n");
        push_metric(&mut out, "chocobase_http_requests_total", self.http_requests_total);
        push_metric(&mut out, "chocobase_http_requests_total{status=\"2xx\"}", self.http_requests_2xx);
        push_metric(&mut out, "chocobase_http_requests_total{status=\"4xx\"}", self.http_requests_4xx);
        push_metric(&mut out, "chocobase_http_requests_total{status=\"5xx\"}", self.http_requests_5xx);
        push_str(&mut out, "\n");
        push_str(&mut out, "# HELP chocobase_sql_queries_total Total number of executed SQL queries.\n");
        push_str(&mut out, "# TYPE chocobase_sql_queries_total counter\n");
        push_metric(&mut out, "chocobase_sql_queries_total", self.sql_queries_total);
        push_metric(
            &mut out,
            "chocobase_sql_queries_total{status=\"success\"}",
            self.sql_queries_success,
        );
        push_metric(&mut out, "chocobase_sql_queries_total{status=\"failed\"}", self.sql_queries_failed);
        push_str(&mut out, "\n");
        push_str(&mut out, "# HELP chocobase_auth_attempts_total Total authentication attempts.\n");
        push_str(&mut out, "# TYPE chocobase_auth_attempts_total counter\n");
        push_metric(&mut out, "chocobase_auth_attempts_total", self.auth_attempts_total);
        push_metric(&mut out, "chocobase_auth_failures_total", self.auth_failures_total);
        push_str(&mut out, "\n");
        push_str(
            &mut out,
            "# HELP chocobase_realtime_events_broadcast_total Total realtime events dispatched.\n",
        );
        push_str(&mut out, "# TYPE chocobase_realtime_events_broadcast_total counter\n");
        push_metric(
            &mut out,
            "chocobase_realtime_events_broadcast_total",
            self.realtime_events_broadcast_total,
        );
        assert(out@ =~= prometheus_text(*self, uptime));
        string_of(out.as_slice())
    }

    /// The Prometheus exposition, with the uptime measured by the clock (0 if the clock
    /// reads earlier than the start).
    pub fn render_prometheus(&self) -> (s: String)
        ensures
            exists|uptime: u64| s@ == prometheus_text(*self, uptime),
    {
        let now = crate::time::now_secs();
        let uptime = now.saturating_sub(self.start_secs);
        self.render_prometheus_at(uptime)
    }
}

} // verus!
