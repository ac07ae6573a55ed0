//! The dependency resolver: one pass over a project's declared dependencies,
//! wrapped around a primary build attempt.
//!
//! The resolver is a state machine from events to actions. The surrounding
//! binary performs each action — a build, a remote existence probe, a fetch —
//! and hands the outcome back as the next event. The machine attempts the
//! primary build once; on failure it walks the dependency names in their
//! sorted order, probing, fetching and building each, where any single
//! dependency's failure is a skip, never an abort; then it retries the
//! primary build exactly once, and that retry's result is the authoritative
//! outcome.

use vstd::prelude::*;

use crate::bytes::copy_bytes;

verus! {

/// Per-dependency bookkeeping for one resolution pass.
pub struct DepRecord {
    /// The dependency name.
    pub name: Vec<u8>,
    /// The remote index has been probed for this name.
    pub checked_remote: bool,
    /// The probe found an entry.
    pub exists_remote: bool,
    /// The dependency's source is materialized in the cache.
    pub fetched: bool,
    /// Its build was attempted.
    pub build_attempted: bool,
}

/// The mathematical shape of a dependency record.
#[verifier::ext_equal]
pub ghost struct DepModel {
    /// The dependency name.
    pub name: Seq<u8>,
    /// The remote index has been probed.
    pub checked_remote: bool,
    /// The probe found an entry.
    pub exists_remote: bool,
    /// The source is materialized.
    pub fetched: bool,
    /// Its build was attempted.
    pub build_attempted: bool,
}

impl View for DepRecord {
    type V = DepModel;

    open spec fn view(&self) -> DepModel {
        DepModel {
            name: self.name@,
            checked_remote: self.checked_remote,
            exists_remote: self.exists_remote,
            fetched: self.fetched,
            build_attempted: self.build_attempted,
        }
    }
}

/// Where the resolution pass stands.
#[derive(Clone, Copy, PartialEq, Eq, Structural, Debug)]
pub enum ResolvePhase {
    /// The primary build has not been attempted yet.
    FirstBuild,
    /// Waiting for the remote probe of this dependency.
    AwaitCheck {
        /// Index into the dependency records.
        idx: usize,
    },
    /// Waiting for the fetch of this dependency.
    AwaitFetch {
        /// Index into the dependency records.
        idx: usize,
    },
    /// Waiting for this dependency's own build.
    AwaitDepBuild {
        /// Index into the dependency records.
        idx: usize,
    },
    /// All dependencies processed; the one final retry of the primary build.
    FinalRetry,
    /// The pass is over; the flag is the authoritative outcome.
    Done {
        /// Whether the authoritative build attempt succeeded.
        success: bool,
    },
}

/// What the surrounding binary must do next.
#[derive(Clone, Copy, PartialEq, Eq, Structural, Debug)]
pub enum ResolveAction {
    /// Run the primary build.
    RunPrimaryBuild,
    /// Probe the remote index for this dependency.
    CheckRemote {
        /// Index into the dependency records.
        idx: usize,
    },
    /// Fetch this dependency's source into the cache.
    FetchDep {
        /// Index into the dependency records.
        idx: usize,
    },
    /// Build this dependency in its cache path.
    BuildDep {
        /// Index into the dependency records.
        idx: usize,
    },
    /// Nothing is left to do; the flag is the authoritative outcome.
    Finished {
        /// Whether the authoritative build attempt succeeded.
        success: bool,
    },
}

/// What the surrounding binary observed.
#[derive(Clone, Copy, PartialEq, Eq, Structural, Debug)]
pub enum ResolveEvent {
    /// A build — primary or dependency — finished.
    BuildResult {
        /// It exited successfully.
        success: bool,
    },
    /// The remote probe answered.
    CheckResult {
        /// An entry exists (2xx at the primary or the backup host).
        exists: bool,
        /// The dependency is already materialized in the cache.
        cached: bool,
    },
    /// The fetch finished.
    FetchResult {
        /// It materialized the source.
        ok: bool,
    },
}

/// One resolution pass in progress.
pub struct Resolver {
    /// The dependency records, in sorted name order.
    pub deps: Vec<DepRecord>,
    /// Where the pass stands.
    pub phase: ResolvePhase,
}

/// The mathematical shape of a resolution pass.
#[verifier::ext_equal]
pub ghost struct ResolverModel {
    /// The dependency records.
    pub deps: Seq<DepModel>,
    /// Where the pass stands.
    pub phase: ResolvePhase,
}

impl View for Resolver {
    type V = ResolverModel;

    open spec fn view(&self) -> ResolverModel {
        ResolverModel {
            deps: self.deps@.map_values(|d: DepRecord| d@),
            phase: self.phase,
        }
    }
}

/// The records fit a real vector and every phase index points inside them.
pub open spec fn wf(m: ResolverModel) -> bool {
    m.deps.len() <= usize::MAX && match m.phase {
        ResolvePhase::AwaitCheck { idx } => idx < m.deps.len(),
        ResolvePhase::AwaitFetch { idx } => idx < m.deps.len(),
        ResolvePhase::AwaitDepBuild { idx } => idx < m.deps.len(),
        _ => true,
    }
}

/// Which event kind each phase is waiting for.
pub open spec fn event_fits(phase: ResolvePhase, ev: ResolveEvent) -> bool {
    match phase {
        ResolvePhase::FirstBuild => ev matches ResolveEvent::BuildResult { .. },
        ResolvePhase::AwaitCheck { .. } => ev matches ResolveEvent::CheckResult { .. },
        ResolvePhase::AwaitFetch { .. } => ev matches ResolveEvent::FetchResult { .. },
        ResolvePhase::AwaitDepBuild { .. } => ev matches ResolveEvent::BuildResult { .. },
        ResolvePhase::FinalRetry => ev matches ResolveEvent::BuildResult { .. },
        ResolvePhase::Done { .. } => false,
    }
}

/// After dependency `i` is dealt with: the next dependency's probe, or the
/// final retry when none is left.
pub open spec fn advance_phase(len: int, i: int) -> ResolvePhase {
    if i + 1 < len {
        ResolvePhase::AwaitCheck { idx: (i + 1) as usize }
    } else {
        ResolvePhase::FinalRetry
    }
}

/// The whole transition relation of one resolution pass.
///
/// A successful first build ends the pass at once (most projects miss
/// nothing). A failed first build opens the dependency walk, or goes straight
/// to the final retry when nothing was declared. A probe marks the record
/// checked; a missing entry is skipped, a present-and-cached one goes
/// straight to its build, a present-and-uncached one is fetched first. A
/// failed fetch skips the dependency; a dependency build, however it ends,
/// moves to the next name. The final retry's result is the outcome.
pub open spec fn spec_step(m: ResolverModel, ev: ResolveEvent) -> ResolverModel {
    match m.phase {
        ResolvePhase::FirstBuild => match ev {
            ResolveEvent::BuildResult { success } => {
                if success {
                    ResolverModel { deps: m.deps, phase: ResolvePhase::Done { success: true } }
                } else if m.deps.len() == 0 {
                    ResolverModel { deps: m.deps, phase: ResolvePhase::FinalRetry }
                } else {
                    ResolverModel { deps: m.deps, phase: ResolvePhase::AwaitCheck { idx: 0 } }
                }
            },
            _ => m,
        },
        ResolvePhase::AwaitCheck { idx } => match ev {
            ResolveEvent::CheckResult { exists, cached } => {
                let i = idx as int;
                let d0 = m.deps[i];
                let d = DepModel {
                    name: d0.name,
                    checked_remote: true,
                    exists_remote: exists,
                    fetched: exists && cached,
                    build_attempted: d0.build_attempted,
                };
                let phase = if !exists {
                    advance_phase(m.deps.len() as int, i)
                } else if cached {
                    ResolvePhase::AwaitDepBuild { idx }
                } else {
                    ResolvePhase::AwaitFetch { idx }
                };
                ResolverModel { deps: m.deps.update(i, d), phase }
            },
            _ => m,
        },
        ResolvePhase::AwaitFetch { idx } => match ev {
            ResolveEvent::FetchResult { ok } => {
                let i = idx as int;
                let d0 = m.deps[i];
                let d = DepModel {
                    name: d0.name,
                    checked_remote: d0.checked_remote,
                    exists_remote: d0.exists_remote,
                    fetched: ok,
                    build_attempted: d0.build_attempted,
                };
                let phase = if ok {
                    ResolvePhase::AwaitDepBuild { idx }
                } else {
                    advance_phase(m.deps.len() as int, i)
                };
                ResolverModel { deps: m.deps.update(i, d), phase }
            },
            _ => m,
        },
        ResolvePhase::AwaitDepBuild { idx } => match ev {
            ResolveEvent::BuildResult { .. } => {
                let i = idx as int;
                let d0 = m.deps[i];
                let d = DepModel {
                    name: d0.name,
                    checked_remote: d0.checked_remote,
                    exists_remote: d0.exists_remote,
                    fetched: d0.fetched,
                    build_attempted: true,
                };
                ResolverModel {
                    deps: m.deps.update(i, d),
                    phase: advance_phase(m.deps.len() as int, i),
                }
            },
            _ => m,
        },
        ResolvePhase::FinalRetry => match ev {
            ResolveEvent::BuildResult { success } => ResolverModel {
                deps: m.deps,
                phase: ResolvePhase::Done { success },
            },
            _ => m,
        },
        ResolvePhase::Done { .. } => m,
    }
}

/// The action each phase calls for.
pub open spec fn spec_action(m: ResolverModel) -> ResolveAction {
    match m.phase {
        ResolvePhase::FirstBuild => ResolveAction::RunPrimaryBuild,
        ResolvePhase::AwaitCheck { idx } => ResolveAction::CheckRemote { idx },
        ResolvePhase::AwaitFetch { idx } => ResolveAction::FetchDep { idx },
        ResolvePhase::AwaitDepBuild { idx } => ResolveAction::BuildDep { idx },
        ResolvePhase::FinalRetry => ResolveAction::RunPrimaryBuild,
        ResolvePhase::Done { success } => ResolveAction::Finished { success },
    }
}

impl Resolver {
    /// A fresh pass over the given dependency names, nothing probed, fetched
    /// or attempted yet.
    pub fn new(names: &Vec<Vec<u8>>) -> (r: Resolver)
        ensures
            r@.phase == ResolvePhase::FirstBuild,
            r@.deps.len() == names@.len(),
            forall|k: int|
                0 <= k < names@.len() ==> r@.deps[k] == (DepModel {
                    name: names.deep_view()[k],
                    checked_remote: false,
                    exists_remote: false,
                    fetched: false,
                    build_attempted: false,
                }),
            wf(r@),
    {
        let ghost nv = names.deep_view();
        let mut deps: Vec<DepRecord> = Vec::new();
        let mut i: usize = 0;
        while i < names.len()
            invariant
                i <= names@.len(),
                nv == names.deep_view(),
                deps@.len() == i,
                forall|k: int|
                    0 <= k < i ==> deps@.map_values(|d: DepRecord| d@)[k] == (DepModel {
                        name: nv[k],
                        checked_remote: false,
                        exists_remote: false,
                        fetched: false,
                        build_attempted: false,
                    }),
            decreases names@.len() - i,
        {
            let name = copy_bytes(&names[i]);
            proof {
                assert(nv[i as int] == names@[i as int].deep_view());
                assert(names@[i as int].deep_view() =~= names@[i as int]@);
            }
            deps.push(
                DepRecord {
                    name,
                    checked_remote: false,
                    exists_remote: false,
                    fetched: false,
                    build_attempted: false,
                },
            );
        proof {
            assert forall|k: int| 0 <= k < i + 1 implies deps@.map_values(|d: DepRecord| d@)[k]
                == (DepModel {
                name: nv[k],
                checked_remote: false,
                exists_remote: false,
                fetched: false,
                build_attempted: false,
            }) by {
                if k < i {
                    assert(deps@[k] == deps@.drop_last()[k]);
                }
            }
        }
            i += 1;
        }
        Resolver { deps, phase: ResolvePhase::FirstBuild }
    }

    /// The name of dependency `i`.
    pub fn dep_name(&self, i: usize) -> (r: Vec<u8>)
        requires
            i < self@.deps.len(),
        ensures
            r@ == self@.deps[i as int].name,
    {
        proof {
            assert(self@.deps[i as int] == self.deps@[i as int]@);
        }
        copy_bytes(&self.deps[i].name)
    }

    /// What to do next.
    pub fn next_action(&self) -> (a: ResolveAction)
        ensures
            a == spec_action(self@),
    {
        match self.phase {
            ResolvePhase::FirstBuild => ResolveAction::RunPrimaryBuild,
            ResolvePhase::AwaitCheck { idx } => ResolveAction::CheckRemote { idx },
            ResolvePhase::AwaitFetch { idx } => ResolveAction::FetchDep { idx },
            ResolvePhase::AwaitDepBuild { idx } => ResolveAction::BuildDep { idx },
            ResolvePhase::FinalRetry => ResolveAction::RunPrimaryBuild,
            ResolvePhase::Done { success } => ResolveAction::Finished { success },
        }
    }

    /// Feed the outcome of the last action back in; the machine moves exactly
    /// as [`spec_step`] says.
    pub fn on_event(&mut self, ev: ResolveEvent)
        requires
            wf(old(self)@),
            event_fits(old(self)@.phase, ev),
        ensures
            final(self)@ == spec_step(old(self)@, ev),
            wf(final(self)@),
    {
        proof {
            lemma_step_wf(self@, ev);
        }
        let ghost m0 = self@;
        let n = self.deps.len();
        match self.phase {
            ResolvePhase::FirstBuild => {
                match ev {
                    ResolveEvent::BuildResult { success } => {
                        if success {
                            self.phase = ResolvePhase::Done { success: true };
                        } else if n == 0 {
                            self.phase = ResolvePhase::FinalRetry;
                        } else {
                            self.phase = ResolvePhase::AwaitCheck { idx: 0 };
                        }
                    },
                    _ => {},
                }
                assert(self@ =~~= spec_step(m0, ev));
            },
            ResolvePhase::AwaitCheck { idx } => {
                match ev {
                    ResolveEvent::CheckResult { exists, cached } => {
                        let name = copy_bytes(&self.deps[idx].name);
                        let build_attempted = self.deps[idx].build_attempted;
                        self.deps.set(
                            idx,
                            DepRecord {
                                name,
                                checked_remote: true,
                                exists_remote: exists,
                                fetched: exists && cached,
                                build_attempted,
                            },
                        );
                        if !exists {
                            if idx + 1 < n {
                                self.phase = ResolvePhase::AwaitCheck { idx: idx + 1 };
                            } else {
                                self.phase = ResolvePhase::FinalRetry;
                            }
                        } else if cached {
                            self.phase = ResolvePhase::AwaitDepBuild { idx };
                        } else {
                            self.phase = ResolvePhase::AwaitFetch { idx };
                        }
                    },
                    _ => {},
                }
                assert(self@ =~~= spec_step(m0, ev));
            },
            ResolvePhase::AwaitFetch { idx } => {
                match ev {
                    ResolveEvent::FetchResult { ok } => {
                        let name = copy_bytes(&self.deps[idx].name);
                        let checked_remote = self.deps[idx].checked_remote;
                        let exists_remote = self.deps[idx].exists_remote;
                        let build_attempted = self.deps[idx].build_attempted;
                        self.deps.set(
                            idx,
                            DepRecord {
                                name,
                                checked_remote,
                                exists_remote,
                                fetched: ok,
                                build_attempted,
                            },
                        );
                        if ok {
                            self.phase = ResolvePhase::AwaitDepBuild { idx };
                        } else if idx + 1 < n {
                            self.phase = ResolvePhase::AwaitCheck { idx: idx + 1 };
                        } else {
                            self.phase = ResolvePhase::FinalRetry;
                        }
                    },
                    _ => {},
                }
                assert(self@ =~~= spec_step(m0, ev));
            },
            ResolvePhase::AwaitDepBuild { idx } => {
                match ev {
                    ResolveEvent::BuildResult { .. } => {
                        let name = copy_bytes(&self.deps[idx].name);
                        let checked_remote = self.deps[idx].checked_remote;
                        let exists_remote = self.deps[idx].exists_remote;
                        let fetched = self.deps[idx].fetched;
                        self.deps.set(
                            idx,
                            DepRecord {
                                name,
                                checked_remote,
                                exists_remote,
                                fetched,
                                build_attempted: true,
                            },
                        );
                        if idx + 1 < n {
                            self.phase = ResolvePhase::AwaitCheck { idx: idx + 1 };
                        } else {
                            self.phase = ResolvePhase::FinalRetry;
                        }
                    },
                    _ => {},
                }
                assert(self@ =~~= spec_step(m0, ev));
            },
            ResolvePhase::FinalRetry => {
                match ev {
                    ResolveEvent::BuildResult { success } => {
                        self.phase = ResolvePhase::Done { success };
                    },
                    _ => {},
                }
                assert(self@ =~~= spec_step(m0, ev));
            },
            ResolvePhase::Done { .. } => {
                assert(self@ =~~= spec_step(m0, ev));
            },
        }
    }
}

/// A step from a well-formed state stays well-formed.
pub proof fn lemma_step_wf(m: ResolverModel, ev: ResolveEvent)
    requires
        wf(m),
    ensures
        wf(spec_step(m, ev)),
{
}

/// How much work can still follow a state: the pass provably ends.
pub open spec fn measure(m: ResolverModel) -> int {
    match m.phase {
        ResolvePhase::Done { .. } => 0,
        ResolvePhase::FinalRetry => 1,
        ResolvePhase::AwaitDepBuild { idx } => 2 + 3 * (m.deps.len() - 1 - idx),
        ResolvePhase::AwaitFetch { idx } => 3 + 3 * (m.deps.len() - 1 - idx),
        ResolvePhase::AwaitCheck { idx } => 4 + 3 * (m.deps.len() - 1 - idx),
        ResolvePhase::FirstBuild => 2 + 3 * (m.deps.len() as int),
    }
}

/// Resolution never loops: every fitting event strictly shrinks the measure,
/// so one pass visits each dependency a bounded number of times and the
/// final retry runs exactly once before the pass is done.
pub proof fn lemma_resolution_terminates(m: ResolverModel, ev: ResolveEvent)
    requires
        wf(m),
        event_fits(m.phase, ev),
    ensures
        0 <= measure(spec_step(m, ev)) < measure(m),
{
    let m2 = spec_step(m, ev);
    match (m.phase, ev) {
        (ResolvePhase::FirstBuild, ResolveEvent::BuildResult { success }) => {
            assert(m2.deps == m.deps);
        },
        (ResolvePhase::AwaitCheck { idx }, ResolveEvent::CheckResult { .. }) => {
            assert(m2.deps.len() == m.deps.len());
        },
        (ResolvePhase::AwaitFetch { idx }, ResolveEvent::FetchResult { .. }) => {
            assert(m2.deps.len() == m.deps.len());
        },
        (ResolvePhase::AwaitDepBuild { idx }, ResolveEvent::BuildResult { .. }) => {
            assert(m2.deps.len() == m.deps.len());
        },
        (ResolvePhase::FinalRetry, ResolveEvent::BuildResult { .. }) => {},
        _ => {
            assert(false);
        },
    }
}

/// The probe discipline of one pass: records are checked left to right, each
/// exactly once — everything before the cursor is checked, everything at or
/// after it is not, and by the final retry every record has been checked.
pub open spec fn check_discipline(m: ResolverModel) -> bool {
    match m.phase {
        ResolvePhase::FirstBuild => forall|k: int|
            0 <= k < m.deps.len() ==> !(#[trigger] m.deps[k]).checked_remote,
        ResolvePhase::AwaitCheck { idx } => forall|k: int|
            0 <= k < m.deps.len() ==> ((#[trigger] m.deps[k]).checked_remote <==> k < idx),
        ResolvePhase::AwaitFetch { idx } => forall|k: int|
            0 <= k < m.deps.len() ==> ((#[trigger] m.deps[k]).checked_remote <==> k <= idx),
        ResolvePhase::AwaitDepBuild { idx } => forall|k: int|
            0 <= k < m.deps.len() ==> ((#[trigger] m.deps[k]).checked_remote <==> k <= idx),
        ResolvePhase::FinalRetry => forall|k: int|
            0 <= k < m.deps.len() ==> (#[trigger] m.deps[k]).checked_remote,
        ResolvePhase::Done { .. } => true,
    }
}

/// Every step keeps the probe discipline: a record's `checked_remote` flag
/// turns from false to true exactly once per pass, in order.
pub proof fn lemma_check_discipline(m: ResolverModel, ev: ResolveEvent)
    requires
        wf(m),
        event_fits(m.phase, ev),
        check_discipline(m),
    ensures
        check_discipline(spec_step(m, ev)),
{
    let m2 = spec_step(m, ev);
    match (m.phase, ev) {
        (ResolvePhase::FirstBuild, ResolveEvent::BuildResult { .. }) => {
            assert(m2.deps == m.deps);
        },
        (ResolvePhase::AwaitCheck { idx }, ResolveEvent::CheckResult { .. }) => {
            let i = idx as int;
            assert forall|k: int| 0 <= k < m2.deps.len() && k != i implies #[trigger] m2.deps[k]
                == m.deps[k] by {}
            assert(m2.deps[i].checked_remote);
        },
        (ResolvePhase::AwaitFetch { idx }, ResolveEvent::FetchResult { .. }) => {
            let i = idx as int;
            assert forall|k: int| 0 <= k < m2.deps.len() && k != i implies #[trigger] m2.deps[k]
                == m.deps[k] by {}
            assert(m2.deps[i].checked_remote == m.deps[i].checked_remote);
        },
        (ResolvePhase::AwaitDepBuild { idx }, ResolveEvent::BuildResult { .. }) => {
            let i = idx as int;
            assert forall|k: int| 0 <= k < m2.deps.len() && k != i implies #[trigger] m2.deps[k]
                == m.deps[k] by {}
            assert(m2.deps[i].checked_remote == m.deps[i].checked_remote);
        },
        (ResolvePhase::FinalRetry, ResolveEvent::BuildResult { .. }) => {
            assert(m2.deps == m.deps);
        },
        _ => {
            assert(false);
        },
    }
}

} // verus!
