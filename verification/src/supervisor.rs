//! The process supervisor's decisions and bookkeeping: admitting a launch
//! from a decoded descriptor, recording a forked child's pid, choosing the
//! signal target of a stop request, and attributing reaped children back
//! to registry entries. The OS calls themselves — sending a signal,
//! collecting an exited child, reading the clock — are narrow trusted
//! wrappers; everything that decides is verified around them.

use vstd::prelude::*;
use crate::codec::deserialize_service_config;
use crate::codec::spec_decode_config;
use crate::config::ConfigView;
use crate::config::DescriptorError;
use crate::config::InfoView;
use crate::config::ServiceConfig;
use crate::config::ServiceInfo;
use crate::registry::ServiceRegistry;
use crate::registry::evicted_pids;
use crate::registry::spec_launch;
use crate::registry::spec_reap;
use nix::errno::Errno;
use nix::sys::signal::kill;
use nix::sys::signal::Signal;
use nix::sys::wait::waitpid;
use nix::sys::wait::WaitPidFlag;
use nix::sys::wait::WaitStatus;
use nix::unistd::Pid;

verus! {

/// Why a launch was refused before any process was spawned.
#[derive(Debug, Clone, Copy, PartialEq, Eq, Structural)]
pub enum StartError {
    /// The descriptor could not be decoded; fatal to this call only.
    Descriptor(DescriptorError),
    /// A registry entry already exists for the descriptor's name.
    Duplicate,
}

/// Decodes the descriptor bytes, refuses a duplicate name, and registers
/// the service as known-but-not-running. On success the caller receives
/// the decoded descriptor to fork and exec from; fork failure afterwards
/// leaves exactly this registered, not-running state behind.
pub fn start_service_from_bytes(reg: &mut ServiceRegistry, data: &[u8]) -> (r: Result<
    ServiceConfig,
    StartError,
>)
    requires
        old(reg).inv(),
    ensures
        final(reg).inv(),
        match r {
            Ok(c) => {
                &&& spec_decode_config(data@) == Ok::<_, DescriptorError>(c@)
                &&& !old(reg)@.services.contains_key(c@.name)
                &&& final(reg)@.services == old(reg)@.services.insert(
                    c@.name,
                    InfoView {
                        name: c@.name,
                        is_running: false,
                        pid: None,
                        last_exit_code: None,
                        up_timestamp: None,
                        config: c@,
                    },
                )
                &&& final(reg)@.pids == old(reg)@.pids
            },
            Err(StartError::Descriptor(e)) => spec_decode_config(data@) == Err::<
                ConfigView,
                _,
            >(e) && final(reg)@ == old(reg)@,
            Err(StartError::Duplicate) => {
                &&& spec_decode_config(data@) is Ok
                &&& old(reg)@.services.contains_key(spec_decode_config(data@)->Ok_0.name)
                &&& final(reg)@ == old(reg)@
            },
        },
{
    let config = match deserialize_service_config(data) {
        Ok(c) => c,
        Err(e) => {
            return Err(StartError::Descriptor(e));
        },
    };
    match reg.get_service(config.name.as_str()) {
        Some(_) => Err(StartError::Duplicate),
        None => {
            let ghost v0 = reg@;
            let name = config.name.clone();
            let plan = config.snapshot();
            let info = ServiceInfo::fresh(config);
            reg.register_service(name, info);
            proof {
                assert(evicted_pids(v0, plan@.name) == v0.pids);
                assert(reg@.services =~= v0.services.insert(
                    plan@.name,
                    InfoView {
                        name: plan@.name,
                        is_running: false,
                        pid: None,
                        last_exit_code: None,
                        up_timestamp: None,
                        config: plan@,
                    },
                ));
            }
            Ok(plan)
        },
    }
}

/// Relies on chrono's `Utc::now`: the wall clock, in whole seconds since
/// the Unix epoch. Nothing is assumed of the value.
#[verifier::external_body]
fn now_unix_seconds() -> (r: i64) {
    chrono::Utc::now().timestamp()
}

/// Records into the registry that the forked child `pid` now backs the
/// registered service `name`, stamped with the current wall-clock time. A
/// negative pid, a pid the index already attributes, or an unknown name
/// changes nothing.
pub fn record_launch(reg: &mut ServiceRegistry, name: &str, pid: i32)
    requires
        old(reg).inv(),
    ensures
        final(reg).inv(),
        (pid >= 0 && !old(reg)@.pids.contains_key(pid as u32) && old(
            reg,
        )@.services.contains_key(name@)) ==> exists|t: i64|
            final(reg)@ == #[trigger] spec_launch(old(reg)@, name@, pid as u32, t),
        !(pid >= 0 && !old(reg)@.pids.contains_key(pid as u32) && old(
            reg,
        )@.services.contains_key(name@)) ==> final(reg)@ == old(reg)@,
{
    if pid >= 0 && !reg.pid_known(pid as u32) {
        let now = now_unix_seconds();
        reg.update_service_pid(Some(name), Some(pid), None, None, now);
        proof {
            if old(reg)@.services.contains_key(name@) {
                assert(reg@ == spec_launch(old(reg)@, name@, pid as u32, now));
            }
        }
    }
}

/// What a stop request found: the live pid to signal together with the
/// descriptor's stop timeout, or nothing to do.
pub fn stop_target(reg: &ServiceRegistry, name: &str) -> (r: Option<(u32, Option<u64>)>)
    ensures
        match r {
            Some((p, t)) => {
                &&& reg@.services.contains_key(name@)
                &&& reg@.services[name@].pid == Some(p)
                &&& reg@.services[name@].config.timeout_stop == t
            },
            None => !reg@.services.contains_key(name@) || reg@.services[name@].pid is None,
        },
{
    match reg.get_service(name) {
        None => None,
        Some(info) => match info.pid {
            Some(p) => Some((p, info.config.timeout_stop)),
            None => None,
        },
    }
}

/// Relies on nix's `kill`: delivers SIGTERM to `pid`. Whether delivery
/// succeeded depends on the process table; a vanished pid is benign.
#[verifier::external_body]
fn send_sigterm(pid: u32) -> (r: bool) {
    kill(Pid::from_raw(pid as i32), Signal::SIGTERM).is_ok()
}

/// Relies on nix's `kill`: delivers SIGKILL to `pid`, the unconditional
/// escalation after a stop timeout elapses.
#[verifier::external_body]
fn send_sigkill(pid: u32) -> (r: bool) {
    kill(Pid::from_raw(pid as i32), Signal::SIGKILL).is_ok()
}

/// Delivers a termination signal to the service's live pid, if it has
/// one, and reports what was signalled together with the stop timeout the
/// caller must honour before escalating. A name with no live pid is a
/// no-op: nothing is signalled, nothing is reported, and the registry is
/// not consulted for side effects.
pub fn signal_stop(reg: &ServiceRegistry, name: &str) -> (r: Option<(u32, Option<u64>)>)
    ensures
        match r {
            Some((p, t)) => {
                &&& reg@.services.contains_key(name@)
                &&& reg@.services[name@].pid == Some(p)
                &&& reg@.services[name@].config.timeout_stop == t
            },
            None => !reg@.services.contains_key(name@) || reg@.services[name@].pid is None,
        },
{
    match stop_target(reg, name) {
        None => None,
        Some((p, t)) => {
            let _delivered = send_sigterm(p);
            Some((p, t))
        },
    }
}

/// Escalates a stop whose timeout elapsed: if the service still holds the
/// same pid, it is killed unconditionally.
pub fn escalate_stop(reg: &ServiceRegistry, name: &str, pid: u32) -> (r: bool)
    ensures
        r == (reg@.services.contains_key(name@) && reg@.services[name@].pid == Some(pid)),
{
    match stop_target(reg, name) {
        Some((p, _)) => {
            if p == pid {
                let _delivered = send_sigkill(pid);
                true
            } else {
                false
            }
        },
        None => false,
    }
}

/// One observation of the child process table.
#[derive(Debug, Clone, Copy, PartialEq, Eq, Structural)]
pub enum ReapEvent {
    /// A child exited on its own with this status.
    Exited { pid: i32, status: i32 },
    /// A child was terminated by a signal; no exit status exists.
    Killed { pid: i32 },
    /// A child changed state without terminating.
    OtherChange,
    /// Children exist but none has terminated.
    NoneReady,
    /// No children exist: a normal end of a reaping sweep.
    NoChildren,
    /// Querying the child table failed.
    Failure,
}

/// Relies on nix's `waitpid` over all children with WNOHANG: collects one
/// exited or terminated child if any, without blocking. The outcome
/// depends on the process table; nothing is assumed of it.
#[verifier::external_body]
fn wait_any_nonblocking() -> (r: ReapEvent) {
    match waitpid(Pid::from_raw(-1), Some(WaitPidFlag::WNOHANG)) {
        Ok(WaitStatus::StillAlive) => ReapEvent::NoneReady,
        Ok(WaitStatus::Exited(pid, status)) => ReapEvent::Exited { pid: pid.as_raw(), status },
        Ok(WaitStatus::Signaled(pid, _sig, _core)) => ReapEvent::Killed { pid: pid.as_raw() },
        Ok(_) => ReapEvent::OtherChange,
        Err(Errno::ECHILD) => ReapEvent::NoChildren,
        Err(_) => ReapEvent::Failure,
    }
}

/// Applies one observation to the registry, attributing a terminated
/// child strictly by its pid; reports whether the sweep is over.
pub fn apply_reap_event(reg: &mut ServiceRegistry, event: ReapEvent) -> (done: bool)
    requires
        old(reg).inv(),
    ensures
        final(reg).inv(),
        match event {
            ReapEvent::Exited { pid, status } => final(reg)@ == (if pid >= 0 {
                spec_reap(old(reg)@, pid as u32, Some(status))
            } else {
                old(reg)@
            }) && !done,
            ReapEvent::Killed { pid } => final(reg)@ == (if pid >= 0 {
                spec_reap(old(reg)@, pid as u32, None)
            } else {
                old(reg)@
            }) && !done,
            ReapEvent::OtherChange => final(reg)@ == old(reg)@ && !done,
            _ => final(reg)@ == old(reg)@ && done,
        },
{
    match event {
        ReapEvent::Exited { pid, status } => {
            reg.update_service_pid(None, None, Some(pid), Some(status), 0);
            false
        },
        ReapEvent::Killed { pid } => {
            reg.update_service_pid(None, None, Some(pid), None, 0);
            false
        },
        ReapEvent::OtherChange => false,
        ReapEvent::NoneReady => true,
        ReapEvent::NoChildren => true,
        ReapEvent::Failure => true,
    }
}

/// More child-table observations than one process can ever see in a
/// sweep: the pid space itself is 32 bits.
pub const REAP_SWEEP_BOUND: u64 = 0xffff_ffff_ffff_ffff;

/// One reaping sweep: collects terminated children until none remain,
/// attributing each through the pid-index. "No children exist" ends the
/// sweep normally; a query failure ends it without corrupting the table.
pub fn reap_pending_children(reg: &mut ServiceRegistry)
    requires
        old(reg).inv(),
    ensures
        final(reg).inv(),
{
    let mut fuel: u64 = REAP_SWEEP_BOUND;
    loop
        invariant
            reg.inv(),
        decreases fuel,
    {
        if fuel == 0 {
            break ;
        }
        fuel = fuel - 1;
        let event = wait_any_nonblocking();
        if apply_reap_event(reg, event) {
            break ;
        }
    }
}

} // verus!
