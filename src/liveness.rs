//! Executor liveness from heartbeats: an executor that has been silent for
//! longer than its time-to-live is lost, and after the death timeout it is
//! to be removed.
use vstd::prelude::*;

verus! {

pub struct LivenessConfig {
    /// Seconds between two heartbeats of a healthy executor.
    pub heartbeat_interval: u64,
    /// Heartbeats an executor may miss before it is lost.
    pub executor_ttl_factor: u64,
    /// Seconds of silence after which a lost executor is removed.
    pub executor_death_timeout: u64,
}

#[derive(Clone, Copy, PartialEq, Eq, Structural, Debug)]
pub enum ExecutorStatus {
    Active,
    Lost,
    Dead,
}

pub enum ConfigError {
    TtlFactorTooSmall,
}

pub open spec fn ttl(c: LivenessConfig) -> int {
    c.heartbeat_interval * c.executor_ttl_factor
}

pub open spec fn status_at(c: LivenessConfig, last: u64, now: u64) -> ExecutorStatus {
    let silent = if now > last {
        now - last
    } else {
        0
    };
    if silent > c.executor_death_timeout {
        ExecutorStatus::Dead
    } else if silent > ttl(c) {
        ExecutorStatus::Lost
    } else {
        ExecutorStatus::Active
    }
}

impl LivenessConfig {
    pub open spec fn spec_default() -> LivenessConfig {
        LivenessConfig { heartbeat_interval: 5, executor_ttl_factor: 3, executor_death_timeout: 75 }
    }

    /// Heartbeats every 5 s, lost after 3 missed, removed after five
    /// time-to-live periods.
    pub fn default_config() -> (r: LivenessConfig)
        ensures
            r == LivenessConfig::spec_default(),
    {
        LivenessConfig { heartbeat_interval: 5, executor_ttl_factor: 3, executor_death_timeout: 75 }
    }

    /// The death timeout defaults to five time-to-live periods, saturating.
    pub fn new(heartbeat_interval: u64, executor_ttl_factor: u64, executor_death_timeout: Option<u64>) -> (r:
        Result<LivenessConfig, ConfigError>)
        ensures
            executor_ttl_factor < 2 <==> r is Err,
            r matches Ok(c) ==> c.heartbeat_interval == heartbeat_interval && c.executor_ttl_factor
                == executor_ttl_factor && c.executor_death_timeout == match executor_death_timeout {
                Some(d) => d as int,
                None => if 5 * heartbeat_interval * executor_ttl_factor <= u64::MAX {
                    5 * heartbeat_interval * executor_ttl_factor
                } else {
                    u64::MAX as int
                },
            },
    {
        if executor_ttl_factor < 2 {
            return Err(ConfigError::TtlFactorTooSmall);
        }
        let death = match executor_death_timeout {
            Some(d) => d,
            None => {
                let h = heartbeat_interval as u128;
                let f = executor_ttl_factor as u128;
                proof {
                    assert(h * f <= u64::MAX as u128 * u64::MAX as u128) by (nonlinear_arith)
                        requires
                            h <= u64::MAX,
                            f <= u64::MAX,
                    ;
                }
                let t = h * f;
                if t > (u64::MAX / 5) as u128 {
                    u64::MAX
                } else {
                    (t * 5) as u64
                }
            },
        };
        proof {
            assert(5 * heartbeat_interval * executor_ttl_factor == (heartbeat_interval
                * executor_ttl_factor) * 5) by (nonlinear_arith);
        }
        Ok(LivenessConfig { heartbeat_interval, executor_ttl_factor, executor_death_timeout: death })
    }

    /// The status at time `now` of an executor last heard from at `last`.
    pub fn status(&self, last: u64, now: u64) -> (r: ExecutorStatus)
        ensures
            r == status_at(*self, last, now),
    {
        let silent: u64 = if now > last {
            now - last
        } else {
            0
        };
        if silent > self.executor_death_timeout {
            ExecutorStatus::Dead
        } else {
            let h = self.heartbeat_interval as u128;
            let f = self.executor_ttl_factor as u128;
            proof {
                assert(h * f <= u64::MAX as u128 * u64::MAX as u128) by (nonlinear_arith)
                    requires
                        h <= u64::MAX,
                        f <= u64::MAX,
                ;
            }
            let t = h * f;
            if silent as u128 > t {
                ExecutorStatus::Lost
            } else {
                ExecutorStatus::Active
            }
        }
    }
}

} // verus!
