//! The service descriptor model: the data shapes exchanged between disk,
//! registry and supervisor, together with their mathematical views and
//! well-formedness conditions.

use vstd::prelude::*;

verus! {

/// What a scheduled trigger may do to a service that is already running,
/// and whether an exited service is started again.
#[derive(Debug, Clone, Copy, PartialEq, Eq, Structural)]
pub enum RestartPolicy {
    Always,
    OnFailure,
    Never,
    OnResourceChange,
}

/// Validity of a cron expression, as croner's parser decides it.
/// The result depends on the expression's characters alone.
pub uninterp spec fn cron_is_valid(s: Seq<char>) -> bool;

/// Relies on croner's `CronParser::parse`: parsing either succeeds or
/// fails, determined by the pattern string alone.
#[verifier::external_body]
pub(crate) fn cron_parse_ok(s: &str) -> (r: bool)
    ensures
        r == cron_is_valid(s@),
{
    match croner::parser::CronParser::new().parse(s) {
        Ok(_) => true,
        Err(_) => false,
    }
}

/// A cron expression that was accepted by the validator; descriptors carry
/// schedules only in this form.
#[derive(Debug, Clone, PartialEq, Eq)]
pub struct CronStr {
    expr: String,
}

impl View for CronStr {
    type V = Seq<char>;

    closed spec fn view(&self) -> Seq<char> {
        self.expr@
    }
}

impl CronStr {
    /// The expression held by a `CronStr` is always a valid one.
    pub open spec fn wf(&self) -> bool {
        cron_is_valid(self@)
    }

    /// Validates `expr` and wraps it; an invalid expression is rejected.
    pub fn new(expr: String) -> (r: Result<CronStr, DescriptorError>)
        ensures
            r is Ok <==> cron_is_valid(expr@),
            r matches Ok(c) ==> c@ == expr@ && c.wf(),
            r is Err ==> (r matches Err(e) && e == DescriptorError::InvalidSchedule),
    {
        if cron_parse_ok(expr.as_str()) {
            Ok(CronStr { expr })
        } else {
            Err(DescriptorError::InvalidSchedule)
        }
    }

    /// The expression text.
    pub fn as_str(&self) -> (r: &str)
        ensures
            r@ == self@,
    {
        self.expr.as_str()
    }

    /// A copy with the same expression.
    pub fn snapshot(&self) -> (r: CronStr)
        ensures
            r@ == self@,
    {
        CronStr { expr: self.expr.clone() }
    }
}

/// Why a descriptor was rejected at load time.
#[derive(Debug, Clone, Copy, PartialEq, Eq, Structural)]
pub enum DescriptorError {
    /// The buffer ended before the encoded value did.
    Truncated,
    /// A tag, flag or policy byte holds a value outside its range.
    BadTag,
    /// A string field is not valid UTF-8.
    BadUtf8,
    /// An environment key occurs twice.
    DuplicateEnvKey,
    /// A schedule expression was rejected by the cron validator.
    InvalidSchedule,
    /// Bytes remain after the last field of the descriptor.
    TrailingBytes,
}

/// An ordered list of environment entries with pairwise distinct keys.
#[derive(Debug, Clone, PartialEq, Eq)]
pub struct EnvMap {
    entries: Vec<(String, String)>,
}

/// The key of entry `i` of `s`.
pub open spec fn env_key(s: Seq<(Seq<char>, Seq<char>)>, i: int) -> Seq<char> {
    s[i].0
}

/// Keys are pairwise distinct.
pub open spec fn env_keys_unique(s: Seq<(Seq<char>, Seq<char>)>) -> bool {
    forall|i: int, j: int| 0 <= i < j < s.len() ==> env_key(s, i) != env_key(s, j)
}

impl View for EnvMap {
    type V = Seq<(Seq<char>, Seq<char>)>;

    closed spec fn view(&self) -> Seq<(Seq<char>, Seq<char>)> {
        self.entries@.map_values(|p: (String, String)| (p.0@, p.1@))
    }
}

impl EnvMap {
    /// Distinct keys: the one invariant of an environment mapping.
    pub open spec fn wf(&self) -> bool {
        env_keys_unique(self@)
    }

    /// An empty mapping; the documented default for a descriptor's `env`.
    pub fn new() -> (r: EnvMap)
        ensures
            r@ =~= Seq::<(Seq<char>, Seq<char>)>::empty(),
            r.wf(),
    {
        EnvMap { entries: Vec::new() }
    }

    pub fn len(&self) -> (r: usize)
        ensures
            r == self@.len(),
    {
        self.entries.len()
    }

    /// Entry `i`, as (key, value).
    pub fn entry(&self, i: usize) -> (r: &(String, String))
        requires
            i < self@.len(),
        ensures
            r.0@ == self@[i as int].0,
            r.1@ == self@[i as int].1,
    {
        &self.entries[i]
    }

    /// Whether some entry has key `key`.
    pub fn contains_key(&self, key: &String) -> (r: bool)
        ensures
            r == exists|i: int| 0 <= i < self@.len() && env_key(self@, i) == key@,
    {
        let mut i: usize = 0;
        while i < self.entries.len()
            invariant
                i <= self@.len(),
                self@.len() == self.entries@.len(),
                forall|k: int| 0 <= k < i ==> env_key(self@, k) != key@,
            decreases self@.len() - i,
        {
            if self.entries[i].0.eq(key) {
                assert(env_key(self@, i as int) == key@);
                return true;
            }
            assert(env_key(self@, i as int) == self.entries@[i as int].0@);
            i += 1;
        }
        false
    }

    /// Appends an entry whose key is not yet present, keeping keys unique.
    pub fn push_new(&mut self, key: String, value: String)
        requires
            old(self).wf(),
            forall|i: int|
                0 <= i < old(self)@.len() ==> env_key(old(self)@, i) != key@,
        ensures
            final(self)@ =~= old(self)@.push((key@, value@)),
            final(self).wf(),
    {
        let ghost v0 = self@;
        self.entries.push((key, value));
        assert(self@ =~= v0.push((key@, value@)));
        assert forall|i: int, j: int| 0 <= i < j < self@.len() implies env_key(
            self@,
            i,
        ) != env_key(self@, j) by {
            if j == v0.len() {
                assert(env_key(self@, j) == key@);
                assert(env_key(self@, i) == env_key(v0, i));
            } else {
                assert(env_key(self@, i) == env_key(v0, i));
                assert(env_key(self@, j) == env_key(v0, j));
            }
        }
    }
}

impl EnvMap {
    /// A copy with the same entries.
    pub fn snapshot(&self) -> (r: EnvMap)
        ensures
            r@ == self@,
    {
        let mut entries: Vec<(String, String)> = Vec::new();
        let mut i: usize = 0;
        while i < self.entries.len()
            invariant
                i <= self.entries@.len(),
                entries@.len() == i as int,
                forall|k: int|
                    0 <= k < i ==> #[trigger] entries@[k].0@ == self.entries@[k].0@
                        && entries@[k].1@ == self.entries@[k].1@,
            decreases self.entries@.len() - i,
        {
            let pair = &self.entries[i];
            entries.push((pair.0.clone(), pair.1.clone()));
            i += 1;
        }
        let r = EnvMap { entries };
        assert(r@ =~= self@);
        r
    }
}

/// A service descriptor: how to launch one service. Persisted on disk,
/// immutable once loaded for a given run.
#[derive(Debug, Clone, PartialEq, Eq)]
pub struct ServiceConfig {
    /// Unique human-readable identifier.
    pub name: String,
    /// Path of the binary to launch; also argv[0].
    pub exec_path: String,
    /// Ordered argument list handed to the binary after argv[0].
    pub args: Vec<String>,
    /// Environment overlay applied over the supervisor's environment.
    pub env: EnvMap,
    /// Directory to change into before the process image is replaced.
    pub working_dir: Option<String>,
    pub restart_policy: RestartPolicy,
    /// Seconds to wait after a stop signal before escalating to a kill.
    pub timeout_stop: Option<u64>,
    /// Cron expression for scheduled runs, validated at load time.
    pub schedule: Option<CronStr>,
    /// If false, a scheduled trigger must not restart a running instance.
    pub force_restart_on_schedule: bool,
}

/// The mathematical shape of a descriptor.
#[verifier::ext_equal]
pub ghost struct ConfigView {
    pub name: Seq<char>,
    pub exec_path: Seq<char>,
    pub args: Seq<Seq<char>>,
    pub env: Seq<(Seq<char>, Seq<char>)>,
    pub working_dir: Option<Seq<char>>,
    pub restart_policy: RestartPolicy,
    pub timeout_stop: Option<u64>,
    pub schedule: Option<Seq<char>>,
    pub force_restart_on_schedule: bool,
}

impl View for ServiceConfig {
    type V = ConfigView;

    open spec fn view(&self) -> ConfigView {
        ConfigView {
            name: self.name@,
            exec_path: self.exec_path@,
            args: self.args@.map_values(|a: String| a@),
            env: self.env@,
            working_dir: match self.working_dir {
                Some(ref d) => Some(d@),
                None => None,
            },
            restart_policy: self.restart_policy,
            timeout_stop: self.timeout_stop,
            schedule: match self.schedule {
                Some(ref c) => Some(c@),
                None => None,
            },
            force_restart_on_schedule: self.force_restart_on_schedule,
        }
    }
}

/// A descriptor view is well formed when its environment keys are unique
/// and its schedule, if any, is a valid cron expression.
pub open spec fn config_view_wf(c: ConfigView) -> bool {
    &&& env_keys_unique(c.env)
    &&& match c.schedule {
        Some(s) => cron_is_valid(s),
        None => true,
    }
}

impl ServiceConfig {
    pub open spec fn wf(&self) -> bool {
        config_view_wf(self@)
    }

    /// A copy with the same view.
    pub fn snapshot(&self) -> (r: ServiceConfig)
        ensures
            r@ == self@,
    {
        let mut args: Vec<String> = Vec::new();
        let mut i: usize = 0;
        while i < self.args.len()
            invariant
                i <= self.args@.len(),
                args@.len() == i as int,
                forall|k: int| 0 <= k < i ==> #[trigger] args@[k]@ == self.args@[k]@,
            decreases self.args@.len() - i,
        {
            args.push(self.args[i].clone());
            i += 1;
        }
        let r = ServiceConfig {
            name: self.name.clone(),
            exec_path: self.exec_path.clone(),
            args,
            env: self.env.snapshot(),
            working_dir: match self.working_dir {
                Some(ref d) => Some(d.clone()),
                None => None,
            },
            restart_policy: self.restart_policy,
            timeout_stop: self.timeout_stop,
            schedule: match self.schedule {
                Some(ref c) => Some(c.snapshot()),
                None => None,
            },
            force_restart_on_schedule: self.force_restart_on_schedule,
        };
        assert(r@.args =~= self@.args);
        assert(r@ =~= self@);
        r
    }
}

impl Default for ServiceConfig {
    /// The fully-defaulted descriptor: every optional field takes its
    /// documented default.
    fn default() -> (r: ServiceConfig)
        ensures
            r@.name == Seq::<char>::empty(),
            r@.exec_path == Seq::<char>::empty(),
            r@.args == Seq::<Seq<char>>::empty(),
            r@.env == Seq::<(Seq<char>, Seq<char>)>::empty(),
            r@.working_dir is None,
            r@.restart_policy == RestartPolicy::Never,
            r@.timeout_stop is None,
            r@.schedule is None,
            !r@.force_restart_on_schedule,
            r.wf(),
    {
        let r = ServiceConfig {
            name: String::new(),
            exec_path: String::new(),
            args: Vec::new(),
            env: EnvMap::new(),
            working_dir: None,
            restart_policy: RestartPolicy::Never,
            timeout_stop: None,
            schedule: None,
            force_restart_on_schedule: false,
        };
        assert(r@.args =~= Seq::<Seq<char>>::empty());
        r
    }
}

/// Runtime state of one registered service.
#[derive(Debug, Clone, PartialEq, Eq)]
pub struct ServiceInfo {
    pub name: String,
    /// True iff a live OS process backs this service.
    pub is_running: bool,
    /// Present iff `is_running`.
    pub pid: Option<u32>,
    /// Last known exit status, retained across restarts for diagnostics.
    pub last_exit_code: Option<i32>,
    /// Unix time (seconds) the current or last process was started.
    pub up_timestamp: Option<i64>,
    pub config: ServiceConfig,
}

/// The mathematical shape of a service's runtime state.
#[verifier::ext_equal]
pub ghost struct InfoView {
    pub name: Seq<char>,
    pub is_running: bool,
    pub pid: Option<u32>,
    pub last_exit_code: Option<i32>,
    pub up_timestamp: Option<i64>,
    pub config: ConfigView,
}

impl View for ServiceInfo {
    type V = InfoView;

    open spec fn view(&self) -> InfoView {
        InfoView {
            name: self.name@,
            is_running: self.is_running,
            pid: self.pid,
            last_exit_code: self.last_exit_code,
            up_timestamp: self.up_timestamp,
            config: self.config@,
        }
    }
}

/// A service holds a pid exactly while it is running.
pub open spec fn info_view_wf(v: InfoView) -> bool {
    v.pid is Some <==> v.is_running
}

impl ServiceInfo {
    pub open spec fn wf(&self) -> bool {
        info_view_wf(self@)
    }

    /// A copy with the same view.
    pub fn snapshot(&self) -> (r: ServiceInfo)
        ensures
            r@ == self@,
    {
        let r = ServiceInfo {
            name: self.name.clone(),
            is_running: self.is_running,
            pid: self.pid,
            last_exit_code: self.last_exit_code,
            up_timestamp: self.up_timestamp,
            config: self.config.snapshot(),
        };
        assert(r@ =~= self@);
        r
    }

    /// The state a service is registered in when its descriptor is first
    /// loaded from disk: known, not running, nothing attributed to it.
    pub fn fresh(config: ServiceConfig) -> (r: ServiceInfo)
        ensures
            r@.name == config@.name,
            !r@.is_running,
            r@.pid is None,
            r@.last_exit_code is None,
            r@.up_timestamp is None,
            r@.config == config@,
            r.wf(),
    {
        let name = config.name.clone();
        ServiceInfo {
            name,
            is_running: false,
            pid: None,
            last_exit_code: None,
            up_timestamp: None,
            config,
        }
    }
}

/// The whole-system configuration: which services are enabled or disabled,
/// and a descriptor per service name.
#[derive(Debug, Clone)]
pub struct Config {
    pub disabled_services: Vec<String>,
    pub enabled_services: Vec<String>,
    pub services: Vec<(String, ServiceConfig)>,
}

impl Config {
    /// Service names are pairwise distinct and every descriptor well formed.
    pub open spec fn wf(&self) -> bool {
        &&& forall|i: int, j: int|
            0 <= i < j < self.services@.len() ==> #[trigger] self.services@[i].0@
                != #[trigger] self.services@[j].0@
        &&& forall|i: int|
            0 <= i < self.services@.len() ==> (#[trigger] self.services@[i].1).wf()
    }
}

} // verus!
