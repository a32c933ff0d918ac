//! The in-memory service registry: the process-wide table mapping a service
//! name to its runtime state, and the pid-index mapping a live OS process id
//! to the service it backs. All mutation of a service's `is_running`, `pid`
//! and `up_timestamp` fields goes through [`ServiceRegistry::update_service_pid`],
//! which keeps the table and the pid-index consistent.

use vstd::prelude::*;
use vstd::hash_map::HashMapWithView;
use vstd::hash_map::StringHashMap;
use crate::config::InfoView;
use crate::config::ServiceInfo;
use crate::config::info_view_wf;

verus! {

/// The mathematical shape of the registry: a table of runtime states keyed
/// by service name, and the pid-index keyed by OS process id.
#[verifier::ext_equal]
pub ghost struct RegistryView {
    pub services: Map<Seq<char>, InfoView>,
    pub pids: Map<u32, Seq<char>>,
}

/// The registry's invariants: every entry holds a pid exactly while it is
/// running; the pid-index attributes each indexed pid to a registered,
/// running service that holds that pid; and every running service's pid is
/// indexed back to it. Together these give that an OS process id is
/// attributed to at most one service at a time.
pub open spec fn registry_view_wf(v: RegistryView) -> bool {
    &&& forall|n: Seq<char>| #[trigger]
        v.services.contains_key(n) ==> info_view_wf(v.services[n])
    &&& forall|p: u32| #[trigger] v.pids.contains_key(p) ==> {
        &&& v.services.contains_key(v.pids[p])
        &&& v.services[v.pids[p]].pid == Some(p)
        &&& v.services[v.pids[p]].is_running
    }
    &&& forall|n: Seq<char>|
        (#[trigger] v.services.contains_key(n) && v.services[n].pid is Some) ==> {
            &&& v.pids.contains_key(v.services[n].pid->0)
            &&& v.pids[v.services[n].pid->0] == n
        }
}

/// The entry `i` as a launch leaves it: backed by the live process `p`,
/// started at time `now`.
pub open spec fn launched_info(i: InfoView, p: u32, now: i64) -> InfoView {
    InfoView { is_running: true, pid: Some(p), up_timestamp: Some(now), ..i }
}

/// The entry `i` as a reap leaves it: not running, nothing attributed,
/// with the exit status `code` recorded when one is known.
pub open spec fn reaped_info(i: InfoView, code: Option<i32>) -> InfoView {
    InfoView {
        is_running: false,
        pid: None,
        up_timestamp: None,
        last_exit_code: if code is Some {
            code
        } else {
            i.last_exit_code
        },
        ..i
    }
}

/// The pid-index of `v` once the pid currently attributed to `n`, if any,
/// has been dropped.
pub open spec fn evicted_pids(v: RegistryView, n: Seq<char>) -> Map<u32, Seq<char>> {
    if v.services.contains_key(n) && v.services[n].pid is Some {
        v.pids.remove(v.services[n].pid->0)
    } else {
        v.pids
    }
}

/// The registry after recording a launch of the registered service `n`
/// with fresh process id `p` at time `now`.
pub open spec fn spec_launch(v: RegistryView, n: Seq<char>, p: u32, now: i64) -> RegistryView {
    RegistryView {
        services: v.services.insert(n, launched_info(v.services[n], p, now)),
        pids: evicted_pids(v, n).insert(p, n),
    }
}

/// The registry after reaping process id `p` with exit status `code`: the
/// owning entry, found through the pid-index, is cleared and `p` dropped
/// from the index. A pid the index does not know leaves the registry
/// untouched.
pub open spec fn spec_reap(v: RegistryView, p: u32, code: Option<i32>) -> RegistryView {
    if v.pids.contains_key(p) && v.services.contains_key(v.pids[p]) {
        RegistryView {
            services: v.services.insert(v.pids[p], reaped_info(v.services[v.pids[p]], code)),
            pids: v.pids.remove(p),
        }
    } else {
        v
    }
}

/// The in-memory service table and pid-index. One instance is owned by the
/// component that starts the process and shared with the control plane and
/// the supervisor.
pub struct ServiceRegistry {
    services: StringHashMap<ServiceInfo>,
    names: Vec<String>,
    pids: HashMapWithView<u32, String>,
}

impl View for ServiceRegistry {
    type V = RegistryView;

    closed spec fn view(&self) -> RegistryView {
        RegistryView {
            services: self.services@.map_values(|i: ServiceInfo| i@),
            pids: self.pids@.map_values(|n: String| n@),
        }
    }
}

impl ServiceRegistry {
    /// The names held in `self.names`, by character content.
    spec fn name_seq(&self) -> Seq<Seq<char>> {
        self.names@.map_values(|s: String| s@)
    }

    /// The registry's internal invariant: the view is well formed and the
    /// name list enumerates the table's domain without duplicates.
    pub closed spec fn inv(&self) -> bool {
        &&& registry_view_wf(self@)
        &&& self.name_seq().no_duplicates()
        &&& forall|i: int|
            0 <= i < self.name_seq().len() ==> self@.services.contains_key(
                #[trigger] self.name_seq()[i],
            )
        &&& forall|k: Seq<char>| #[trigger]
            self@.services.contains_key(k) ==> self.name_seq().contains(k)
    }

    /// An empty registry.
    pub fn new() -> (r: ServiceRegistry)
        ensures
            r@.services == Map::<Seq<char>, InfoView>::empty(),
            r@.pids == Map::<u32, Seq<char>>::empty(),
            r.inv(),
    {
        let r = ServiceRegistry {
            services: StringHashMap::new(),
            names: Vec::new(),
            pids: HashMapWithView::new(),
        };
        proof {
            assert(r@.services =~= Map::<Seq<char>, InfoView>::empty());
            assert(r@.pids =~= Map::<u32, Seq<char>>::empty());
        }
        r
    }

    /// Inserts or overwrites the entry for `name`; does not fail. The
    /// caller is responsible for duplicate checks. Registration records a
    /// service that is not running — setting a pid is the supervisor's
    /// exclusive privilege — so an overwritten entry's stale pid, if any,
    /// is dropped from the pid-index.
    pub fn register_service(&mut self, name: String, info: ServiceInfo)
        requires
            old(self).inv(),
            !info@.is_running,
            info@.pid is None,
        ensures
            final(self).inv(),
            final(self)@.services == old(self)@.services.insert(name@, info@),
            final(self)@.pids == evicted_pids(old(self)@, name@),
    {
        let ghost v0 = self@;
        let ghost names0 = self.name_seq();
        let stale_pid: Option<u32> = match self.services.get(name.as_str()) {
            Some(prev) => prev.pid,
            None => None,
        };
        if let Some(q) = stale_pid {
            self.pids.remove(&q);
        }
        let was_absent = !self.services.contains_key(name.as_str());
        if was_absent {
            self.names.push(name.clone());
        }
        self.services.insert(name, info);
        proof {
            assert(self@.services =~= v0.services.insert(name@, info@));
            assert(self@.pids =~= evicted_pids(v0, name@));
            if was_absent {
                assert(self.name_seq() =~= names0.push(name@));
                assert forall|a: int, b: int|
                    0 <= a < b < self.name_seq().len() implies self.name_seq()[a]
                    != self.name_seq()[b] by {
                    if b == names0.len() {
                        assert(self.name_seq()[a] == names0[a]);
                        assert(v0.services.contains_key(names0[a]));
                    }
                }
                assert(self.name_seq().no_duplicates());
                assert forall|k: int|
                    0 <= k < self.name_seq().len() implies self@.services.contains_key(
                    #[trigger] self.name_seq()[k],
                ) by {
                    if k < names0.len() {
                        assert(self.name_seq()[k] == names0[k]);
                        assert(v0.services.contains_key(names0[k]));
                    }
                }
                assert forall|k: Seq<char>| #[trigger]
                    self@.services.contains_key(k) implies self.name_seq().contains(k) by {
                    if k == name@ {
                        assert(self.name_seq()[names0.len() as int] == name@);
                    } else {
                        assert(v0.services.contains_key(k));
                        let j = choose|j: int| 0 <= j < names0.len() && names0[j] == k;
                        assert(self.name_seq()[j] == k);
                    }
                }
            } else {
                assert(self.name_seq() == names0);
                assert(self@.services.dom() =~= v0.services.dom());
            }
            self.lemma_register_preserves_wf(v0, name@, info@);
        }
    }

    proof fn lemma_register_preserves_wf(&self, v0: RegistryView, n: Seq<char>, i: InfoView)
        requires
            registry_view_wf(v0),
            !i.is_running,
            i.pid is None,
            self@.services == v0.services.insert(n, i),
            self@.pids == evicted_pids(v0, n),
        ensures
            registry_view_wf(self@),
    {
        let v1 = self@;
        assert forall|p: u32| #[trigger] v1.pids.contains_key(p) implies {
            &&& v1.services.contains_key(v1.pids[p])
            &&& v1.services[v1.pids[p]].pid == Some(p)
            &&& v1.services[v1.pids[p]].is_running
        } by {
            assert(v0.pids.contains_key(p));
            assert(v0.pids[p] == v1.pids[p]);
            if v1.pids[p] == n {
                // the stale pid attributed to n was evicted, so p cannot
                // point at n any more
                assert(v0.services[n].pid == Some(p));
                assert(false);
            }
        }
        assert forall|m: Seq<char>|
            (#[trigger] v1.services.contains_key(m) && v1.services[m].pid is Some) implies {
            &&& v1.pids.contains_key(v1.services[m].pid->0)
            &&& v1.pids[v1.services[m].pid->0] == m
        } by {
            assert(m != n);
            let q = v1.services[m].pid->0;
            assert(v0.services.contains_key(m) && v0.services[m].pid == Some(q));
            assert(v0.pids.contains_key(q) && v0.pids[q] == m);
            if v0.services.contains_key(n) && v0.services[n].pid is Some {
                assert(q != v0.services[n].pid->0);
            }
        }
    }

    /// A snapshot copy of the entry for `name`; `None` means the service
    /// is not registered.
    pub fn get_service(&self, name: &str) -> (r: Option<ServiceInfo>)
        ensures
            match r {
                Some(i) => self@.services.contains_key(name@) && i@ == self@.services[name@],
                None => !self@.services.contains_key(name@),
            },
    {
        match self.services.get(name) {
            Some(i) => Some(i.snapshot()),
            None => None,
        }
    }

    /// A snapshot of all registered entries, one pair per service, order
    /// not significant.
    pub fn list_services(&self) -> (r: Vec<(String, ServiceInfo)>)
        requires
            self.inv(),
        ensures
            forall|i: int|
                0 <= i < r@.len() ==> self@.services.contains_key(#[trigger] r@[i].0@)
                    && r@[i].1@ == self@.services[r@[i].0@],
            forall|k: Seq<char>| #[trigger]
                self@.services.contains_key(k) ==> exists|i: int|
                    0 <= i < r@.len() && #[trigger] r@[i].0@ == k,
            forall|i: int, j: int| 0 <= i < j < r@.len() ==> r@[i].0@ != r@[j].0@,
    {
        let mut r: Vec<(String, ServiceInfo)> = Vec::new();
        let mut i: usize = 0;
        while i < self.names.len()
            invariant
                self.inv(),
                i <= self.names@.len(),
                r@.len() == i as int,
                forall|k: int| 0 <= k < i ==> #[trigger] r@[k].0@ == self.name_seq()[k],
                forall|k: int|
                    0 <= k < i ==> self@.services.contains_key(#[trigger] r@[k].0@)
                        && r@[k].1@ == self@.services[r@[k].0@],
            decreases self.names@.len() - i,
        {
            let name = self.names[i].clone();
            proof {
                assert(self.name_seq()[i as int] == self.names@[i as int]@);
                assert(self@.services.contains_key(self.name_seq()[i as int]));
            }
            assert(self@.services.contains_key(name@));
            match self.services.get(name.as_str()) {
                Some(info) => {
                    r.push((name, info.snapshot()));
                },
                None => {
                    proof {
                        assert(false);
                    }
                },
            }
            i += 1;
        }
        proof {
            assert forall|k: Seq<char>| #[trigger] self@.services.contains_key(k) implies exists|
                j: int,
            |
                0 <= j < r@.len() && #[trigger] r@[j].0@ == k by {
                let j = choose|j: int| 0 <= j < self.name_seq().len() && self.name_seq()[j] == k;
                assert(self.name_seq().contains(k));
                assert(r@[j].0@ == k);
            }
        }
        r
    }

    /// Whether the pid-index currently attributes `pid` to some service.
    pub fn pid_known(&self, pid: u32) -> (r: bool)
        ensures
            r == self@.pids.contains_key(pid),
    {
        self.pids.contains_key(&pid)
    }

    /// Records a launch or a reap; any other argument shape is a silent
    /// no-op. A launch (`name` and `new_pid` given, `old_pid` absent) marks
    /// the registered service running with the freshly forked, still
    /// unattributed process id, stamped with `now`; launching an unknown
    /// name changes nothing. A reap (`old_pid` alone) clears the owning
    /// entry through the pid-index, recording `exit_code` when one is
    /// known; a pid the index does not know is a silent no-op.
    pub fn update_service_pid(
        &mut self,
        name: Option<&str>,
        new_pid: Option<i32>,
        old_pid: Option<i32>,
        exit_code: Option<i32>,
        now: i64,
    )
        requires
            old(self).inv(),
            (name is Some && new_pid is Some && old_pid is None) ==> new_pid->0 >= 0 && !old(
                self,
            )@.pids.contains_key(new_pid->0 as u32),
        ensures
            final(self).inv(),
            (name is Some && new_pid is Some && old_pid is None) ==> final(self)@ == (if old(
                self,
            )@.services.contains_key(name->0@) {
                spec_launch(old(self)@, name->0@, new_pid->0 as u32, now)
            } else {
                old(self)@
            }),
            (name is None && new_pid is None && old_pid is Some) ==> final(self)@ == (if old_pid->0
                >= 0 {
                spec_reap(old(self)@, old_pid->0 as u32, exit_code)
            } else {
                old(self)@
            }),
            !((name is Some && new_pid is Some && old_pid is None) || (name is None
                && new_pid is None && old_pid is Some)) ==> final(self)@ == old(self)@,
    {
        match (name, new_pid, old_pid) {
            (Some(n), Some(p), None) => {
                let ghost v0 = self@;
                let p_u: u32 = p as u32;
                let entry: Option<ServiceInfo> = match self.services.get(n) {
                    Some(info) => Some(info.snapshot()),
                    None => None,
                };
                match entry {
                    Some(mut info) => {
                        let stale = info.pid;
                        info.is_running = true;
                        info.pid = Some(p_u);
                        info.up_timestamp = Some(now);
                        if let Some(q) = stale {
                            self.pids.remove(&q);
                        }
                        self.pids.insert(p_u, n.to_owned());
                        self.services.insert(n.to_owned(), info);
                        proof {
                            assert(self@.services =~= v0.services.insert(
                                n@,
                                launched_info(v0.services[n@], p_u, now),
                            ));
                            assert(self@.pids =~= evicted_pids(v0, n@).insert(p_u, n@));
                            assert(self@ =~= spec_launch(v0, n@, p_u, now));
                            self.lemma_launch_preserves_inv(v0, n@, p_u, now);
                        }
                    },
                    None => {
                    },
                }
            },
            (None, None, Some(p)) => {
                if p >= 0 {
                    let ghost v0 = self@;
                    let p_u: u32 = p as u32;
                    let owner: Option<String> = match self.pids.get(&p_u) {
                        Some(nm) => Some(nm.clone()),
                        None => None,
                    };
                    if let Some(nm) = owner {
                        proof {
                            assert(v0.pids.contains_key(p_u));
                            assert(v0.pids[p_u] == nm@);
                            assert(v0.services.contains_key(nm@));
                        }
                        self.pids.remove(&p_u);
                        let entry: Option<ServiceInfo> = match self.services.get(nm.as_str()) {
                            Some(info) => Some(info.snapshot()),
                            None => None,
                        };
                        match entry {
                            Some(mut info) => {
                                info.is_running = false;
                                info.pid = None;
                                info.up_timestamp = None;
                                if let Some(c) = exit_code {
                                    info.last_exit_code = Some(c);
                                }
                                self.services.insert(nm, info);
                                proof {
                                    assert(self@.services =~= v0.services.insert(
                                        v0.pids[p_u],
                                        reaped_info(v0.services[v0.pids[p_u]], exit_code),
                                    ));
                                    assert(self@.pids =~= v0.pids.remove(p_u));
                                    assert(self@ =~= spec_reap(v0, p_u, exit_code));
                                    self.lemma_reap_preserves_inv(v0, p_u, exit_code);
                                }
                            },
                            None => {
                                proof {
                                    assert(false);
                                }
                            },
                        }
                    }
                }
            },
            _ => {
            },
        }
    }

    proof fn lemma_launch_preserves_inv(&self, v0: RegistryView, n: Seq<char>, p: u32, now: i64)
        requires
            registry_view_wf(v0),
            v0.services.contains_key(n),
            !v0.pids.contains_key(p),
            self@ == spec_launch(v0, n, p, now),
            self.name_seq().no_duplicates(),
            forall|k: int|
                0 <= k < self.name_seq().len() ==> v0.services.contains_key(
                    #[trigger] self.name_seq()[k],
                ),
            forall|k: Seq<char>| #[trigger]
                v0.services.contains_key(k) ==> self.name_seq().contains(k),
        ensures
            self.inv(),
    {
        let v1 = self@;
        assert(v1.services.dom() =~= v0.services.dom());
        assert forall|q: u32| #[trigger] v1.pids.contains_key(q) implies {
            &&& v1.services.contains_key(v1.pids[q])
            &&& v1.services[v1.pids[q]].pid == Some(q)
            &&& v1.services[v1.pids[q]].is_running
        } by {
            if q == p {
                assert(v1.pids[q] == n);
            } else {
                assert(evicted_pids(v0, n).contains_key(q));
                assert(v0.pids.contains_key(q));
                let m = v0.pids[q];
                if m == n {
                    // q would be n's stale pid, which was evicted
                    assert(v0.services[n].pid == Some(q));
                    assert(!evicted_pids(v0, n).contains_key(q));
                    assert(false);
                }
                assert(v1.pids[q] == m);
                assert(v1.services[m] == v0.services[m]);
            }
        }
        assert forall|m: Seq<char>|
            (#[trigger] v1.services.contains_key(m) && v1.services[m].pid is Some) implies {
            &&& v1.pids.contains_key(v1.services[m].pid->0)
            &&& v1.pids[v1.services[m].pid->0] == m
        } by {
            if m == n {
                assert(v1.services[n].pid == Some(p));
                assert(v1.pids.contains_key(p) && v1.pids[p] == n);
            } else {
                let q = v1.services[m].pid->0;
                assert(v0.services.contains_key(m) && v0.services[m].pid == Some(q));
                assert(v0.pids.contains_key(q) && v0.pids[q] == m);
                assert(q != p);
                if v0.services[n].pid is Some {
                    assert(v0.pids[v0.services[n].pid->0] == n);
                    assert(q != v0.services[n].pid->0);
                }
                assert(v1.pids.contains_key(q) && v1.pids[q] == m);
            }
        }
    }

    proof fn lemma_reap_preserves_inv(&self, v0: RegistryView, p: u32, code: Option<i32>)
        requires
            registry_view_wf(v0),
            v0.pids.contains_key(p),
            v0.services.contains_key(v0.pids[p]),
            self@ == spec_reap(v0, p, code),
            self.name_seq().no_duplicates(),
            forall|k: int|
                0 <= k < self.name_seq().len() ==> v0.services.contains_key(
                    #[trigger] self.name_seq()[k],
                ),
            forall|k: Seq<char>| #[trigger]
                v0.services.contains_key(k) ==> self.name_seq().contains(k),
        ensures
            self.inv(),
    {
        let v1 = self@;
        let n = v0.pids[p];
        assert(v1.services.dom() =~= v0.services.dom());
        assert forall|q: u32| #[trigger] v1.pids.contains_key(q) implies {
            &&& v1.services.contains_key(v1.pids[q])
            &&& v1.services[v1.pids[q]].pid == Some(q)
            &&& v1.services[v1.pids[q]].is_running
        } by {
            assert(q != p);
            assert(v0.pids.contains_key(q));
            let m = v0.pids[q];
            if m == n {
                assert(v0.services[n].pid == Some(q));
                assert(v0.services[n].pid == Some(p));
                assert(false);
            }
            assert(v1.services[m] == v0.services[m]);
        }
        assert forall|m: Seq<char>|
            (#[trigger] v1.services.contains_key(m) && v1.services[m].pid is Some) implies {
            &&& v1.pids.contains_key(v1.services[m].pid->0)
            &&& v1.pids[v1.services[m].pid->0] == m
        } by {
            assert(m != n);
            let q = v1.services[m].pid->0;
            assert(v0.services.contains_key(m) && v0.services[m].pid == Some(q));
            assert(v0.pids.contains_key(q) && v0.pids[q] == m);
            assert(q != p);
        }
    }

    /// Removes the entry for `name`. Deregistering a running service is
    /// refused — the caller must stop it first — and deregistering an
    /// unknown name removes nothing; both report `false`.
    pub fn deregister_service(&mut self, name: &str) -> (r: bool)
        requires
            old(self).inv(),
        ensures
            final(self).inv(),
            r == (old(self)@.services.contains_key(name@) && !old(
                self,
            )@.services[name@].is_running),
            r ==> final(self)@.services == old(self)@.services.remove(name@) && final(self)@.pids
                == old(self)@.pids,
            !r ==> final(self)@ == old(self)@,
    {
        let ghost v0 = self@;
        let running = match self.services.get(name) {
            Some(info) => Some(info.is_running),
            None => None,
        };
        match running {
            None => false,
            Some(true) => false,
            Some(false) => {
                let ghost names0 = self.name_seq();
                self.services.remove(name);
                let key: String = name.to_owned();
                let found = find_name_index(&self.names, &key);
                match found {
                    Some(i) => {
                        self.names.remove(i);
                        proof {
                            assert(self@.services =~= v0.services.remove(name@));
                            assert(self@.pids =~= v0.pids);
                            assert(self.name_seq() =~= names0.remove(i as int));
                            assert(names0[i as int] == name@);
                            self.lemma_deregister_preserves_inv(v0, name@, names0, i as int);
                        }
                        true
                    },
                    None => {
                        proof {
                            assert(v0.services.contains_key(name@));
                            assert(names0.contains(name@));
                            let j = choose|j: int|
                                0 <= j < names0.len() && names0[j] == name@;
                            assert(self.names@[j]@ == name@);
                            assert(false);
                        }
                        true
                    },
                }
            },
        }
    }

    proof fn lemma_deregister_preserves_inv(
        &self,
        v0: RegistryView,
        n: Seq<char>,
        names0: Seq<Seq<char>>,
        i: int,
    )
        requires
            registry_view_wf(v0),
            v0.services.contains_key(n),
            !v0.services[n].is_running,
            self@.services == v0.services.remove(n),
            self@.pids == v0.pids,
            names0.no_duplicates(),
            forall|k: int| 0 <= k < names0.len() ==> v0.services.contains_key(#[trigger] names0[k]),
            forall|k: Seq<char>| #[trigger] v0.services.contains_key(k) ==> names0.contains(k),
            0 <= i < names0.len(),
            names0[i] == n,
            self.name_seq() == names0.remove(i),
        ensures
            self.inv(),
    {
        let v1 = self@;
        let names1 = self.name_seq();
        assert(v0.services[n].pid is None);
        assert forall|p: u32| #[trigger] v1.pids.contains_key(p) implies {
            &&& v1.services.contains_key(v1.pids[p])
            &&& v1.services[v1.pids[p]].pid == Some(p)
            &&& v1.services[v1.pids[p]].is_running
        } by {
            assert(v0.pids.contains_key(p));
            if v0.pids[p] == n {
                assert(v0.services[n].is_running);
                assert(false);
            }
        }
        assert forall|k: int| 0 <= k < names1.len() implies v1.services.contains_key(
            #[trigger] names1[k],
        ) by {
            if k < i {
                assert(names1[k] == names0[k]);
                assert(names0[k] != n);
            } else {
                assert(names1[k] == names0[k + 1]);
                assert(names0[k + 1] != n);
            }
        }
        assert forall|k: Seq<char>| #[trigger] v1.services.contains_key(k) implies names1.contains(
            k,
        ) by {
            assert(v0.services.contains_key(k));
            assert(names0.contains(k));
            let j = choose|j: int| 0 <= j < names0.len() && names0[j] == k;
            assert(j != i);
            if j < i {
                assert(names1[j] == k);
            } else {
                assert(names1[j - 1] == k);
            }
        }
        assert forall|a: int, b: int| 0 <= a < b < names1.len() implies names1[a] != names1[b] by {
            let a0 = if a < i {
                a
            } else {
                a + 1
            };
            let b0 = if b < i {
                b
            } else {
                b + 1
            };
            assert(names1[a] == names0[a0]);
            assert(names1[b] == names0[b0]);
        }
        assert(names1.no_duplicates());
    }
}

/// The position of the first name in `names` whose characters equal `key`.
fn find_name_index(names: &Vec<String>, key: &String) -> (r: Option<usize>)
    ensures
        match r {
            Some(j) => j < names@.len() && names@[j as int]@ == key@,
            None => forall|k: int| 0 <= k < names@.len() ==> #[trigger] names@[k]@ != key@,
        },
{
    let mut i: usize = 0;
    while i < names.len()
        invariant
            i <= names@.len(),
            forall|k: int| 0 <= k < i ==> #[trigger] names@[k]@ != key@,
        decreases names@.len() - i,
    {
        if names[i].eq(key) {
            return Some(i);
        }
        i += 1;
    }
    None
}

/// Registering a service and then asking for it by the same name yields
/// exactly the registered entry: over the registry's model, inserting a
/// binding makes that binding present, and lookup returns it.
pub proof fn lemma_register_then_get(
    services: Map<Seq<char>, InfoView>,
    n: Seq<char>,
    i: InfoView,
)
    ensures
        services.insert(n, i).contains_key(n),
        services.insert(n, i)[n] == i,
{
}

/// After a launch of a registered service the entry is running and holds
/// the launched pid, and the pid-index resolves that pid to the service;
/// after that pid is reaped the entry is not running, holds no pid, and the
/// pid-index no longer resolves the pid. The known exit status is recorded.
pub proof fn lemma_launch_then_reap(
    v: RegistryView,
    n: Seq<char>,
    p: u32,
    now: i64,
    code: Option<i32>,
)
    requires
        registry_view_wf(v),
        v.services.contains_key(n),
        !v.pids.contains_key(p),
    ensures
        spec_launch(v, n, p, now).services[n].is_running,
        spec_launch(v, n, p, now).services[n].pid == Some(p),
        spec_launch(v, n, p, now).pids.contains_key(p),
        spec_launch(v, n, p, now).pids[p] == n,
        !spec_reap(spec_launch(v, n, p, now), p, code).services[n].is_running,
        spec_reap(spec_launch(v, n, p, now), p, code).services[n].pid is None,
        !spec_reap(spec_launch(v, n, p, now), p, code).pids.contains_key(p),
        code is Some ==> spec_reap(spec_launch(v, n, p, now), p, code).services[n].last_exit_code
            == code,
{
    let v1 = spec_launch(v, n, p, now);
    assert(v1.pids.contains_key(p) && v1.pids[p] == n);
    assert(v1.services.contains_key(n));
}

/// An OS process id is attributed to at most one service at a time: in a
/// well-formed registry, two registered services holding the same pid are
/// the same service.
pub proof fn lemma_pid_attributed_once(v: RegistryView, n1: Seq<char>, n2: Seq<char>, p: u32)
    requires
        registry_view_wf(v),
        v.services.contains_key(n1),
        v.services.contains_key(n2),
        v.services[n1].pid == Some(p),
        v.services[n2].pid == Some(p),
    ensures
        n1 == n2,
{
    assert(v.pids[p] == n1);
    assert(v.pids[p] == n2);
}

/// Reaping a pid the pid-index does not know is a no-op: no entry is
/// mutated and the registry is left exactly as it was.
pub proof fn lemma_reap_unknown_pid_is_no_op(v: RegistryView, p: u32, code: Option<i32>)
    requires
        !v.pids.contains_key(p),
    ensures
        spec_reap(v, p, code) == v,
{
}

} // verus!
