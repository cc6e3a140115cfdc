//! The engine that runs several game sessions at the same time under a fixed ceiling.
//!
//! The engine is a state machine: it is told when a job is submitted and when a running job
//! has ended (normally or by a fault), and it answers with the job that may start now. The
//! caller runs the bodies; the engine owns the registry of running sessions and the permits.

use std::collections::HashMap;
use vstd::prelude::*;

verus! {

broadcast use vstd::std_specs::hash::group_hash_axioms;

/// All relevant game metadata: the session's id, its display name and its body.
pub struct GameInfo<F> {
    /// The game's id
    pub id: usize,
    /// The game's name
    pub name: String,
    /// The game's body, run by whoever receives it from the engine
    fut: F,
}

impl<F> GameInfo<F> {
    /// Creates a new GameInfo based on an id, a name and the session body.
    pub fn new(id: usize, name: String, fut: F) -> (r: Self)
        ensures
            r@ == (Pending { id, name: name@, body: fut }),
    {
        GameInfo { id, name, fut }
    }

    /// Gives up the metadata and returns the body to run.
    pub fn into_body(self) -> (r: F)
        ensures
            r == self@.body,
    {
        self.fut
    }
}

impl<F> View for GameInfo<F> {
    type V = Pending<F>;

    closed spec fn view(&self) -> Pending<F> {
        Pending { id: self.id, name: self.name@, body: self.fut }
    }
}

/// A job as the engine sees it: id, display name and body.
pub ghost struct Pending<F> {
    pub id: usize,
    pub name: Seq<char>,
    pub body: F,
}

/// The abstract state of an engine: its ceiling, the registry of running sessions
/// (one permit each), and the jobs waiting for a permit, longest-waiting first.
pub ghost struct EngineState<F> {
    pub capacity: nat,
    pub registry: Map<usize, Seq<char>>,
    pub waiting: Seq<Pending<F>>,
}

impl<F> EngineState<F> {
    pub open spec fn is_waiting(self, id: usize) -> bool {
        exists|i: int| 0 <= i < self.waiting.len() && (#[trigger] self.waiting[i]).id == id
    }

    /// The id is already running or waiting.
    pub open spec fn is_known(self, id: usize) -> bool {
        self.registry.contains_key(id) || self.is_waiting(id)
    }

    /// The registry never holds more sessions than there are permits, no permit stays
    /// idle while a job waits, and ids are unique across running and waiting jobs.
    pub open spec fn inv(self) -> bool {
        &&& self.registry.dom().finite()
        &&& self.registry.len() <= self.capacity
        &&& self.waiting.len() > 0 ==> self.registry.len() == self.capacity
        &&& forall|i: int, j: int|
            0 <= i < j < self.waiting.len() ==> (#[trigger] self.waiting[i]).id
                != (#[trigger] self.waiting[j]).id
        &&& forall|i: int|
            0 <= i < self.waiting.len() ==> !self.registry.contains_key(
                (#[trigger] self.waiting[i]).id,
            )
    }

    /// A submitted job starts at once when a permit is free, waits otherwise; a job whose
    /// id is already known changes nothing.
    pub open spec fn submit(self, job: Pending<F>) -> Self {
        if self.is_known(job.id) {
            self
        } else if self.registry.len() < self.capacity {
            EngineState {
                capacity: self.capacity,
                registry: self.registry.insert(job.id, job.name),
                waiting: self.waiting,
            }
        } else {
            EngineState {
                capacity: self.capacity,
                registry: self.registry,
                waiting: self.waiting.push(job),
            }
        }
    }

    /// The session `id` has ended: its entry and permit are released, and the
    /// longest-waiting job, if any, takes the freed permit.
    pub open spec fn finish(self, id: usize) -> Self {
        let freed = self.registry.remove(id);
        if self.waiting.len() > 0 && freed.len() < self.capacity {
            EngineState {
                capacity: self.capacity,
                registry: freed.insert(self.waiting[0].id, self.waiting[0].name),
                waiting: self.waiting.drop_first(),
            }
        } else {
            EngineState { capacity: self.capacity, registry: freed, waiting: self.waiting }
        }
    }
}

/// Whether `finish` on `s` hands the freed permit to a waiting job.
pub open spec fn finish_starts_next<F>(s: EngineState<F>, id: usize) -> bool {
    s.waiting.len() > 0 && s.registry.remove(id).len() < s.capacity
}

/// A session that may start now: the caller runs `body` and reports its end with `finish`.
pub struct Launch<F> {
    pub id: usize,
    pub body: F,
}

/// What the engine did with a submitted job.
pub enum Admission<F> {
    /// A permit was free: the session is registered and must be run now.
    Start(Launch<F>),
    /// All permits are held: the job waits and starts from a later `finish`.
    Queued,
    /// The id is already running or waiting: the job is handed back untouched.
    Duplicate(GameInfo<F>),
}

/// The engine holds all currently executing games. It is not aware of any internal state of
/// these games aside from their registered name.
pub struct SessionEngine<F> {
    /// Number of permits
    capacity: usize,
    /// Id - name mappings for running games, one permit each
    registry: HashMap<usize, String>,
    /// Jobs waiting for a permit, longest-waiting first
    waiting: Vec<GameInfo<F>>,
    /// The ids of the running games, each once, in the order they started
    order: Vec<usize>,
}

impl<F> View for SessionEngine<F> {
    type V = EngineState<F>;

    closed spec fn view(&self) -> EngineState<F> {
        EngineState {
            capacity: self.capacity as nat,
            registry: self.registry@.map_values(|s: String| s@),
            waiting: self.waiting@.map_values(|j: GameInfo<F>| j@),
        }
    }
}

impl<F> SessionEngine<F> {
    /// The engine's state is consistent with its invariant.
    pub open spec fn wf(&self) -> bool {
        self@.inv() && self.order_ok()
    }

    /// `order` lists each running id once.
    pub closed spec fn order_ok(&self) -> bool {
        &&& self.order@.no_duplicates()
        &&& self.order@.len() == self.registry@.len()
        &&& forall|id: usize| self.registry@.contains_key(id) <==> self.order@.contains(id)
    }

    /// Creates an engine with `capacity` permits, no running and no waiting session.
    pub fn new(capacity: usize) -> (r: Self)
        ensures
            r.wf(),
            r@.capacity == capacity,
            r@.registry == Map::<usize, Seq<char>>::empty(),
            r@.waiting == Seq::<Pending<F>>::empty(),
    {
        let r = SessionEngine {
            capacity,
            registry: HashMap::new(),
            waiting: Vec::new(),
            order: Vec::new(),
        };
        assert(r@.registry =~= Map::<usize, Seq<char>>::empty());
        assert(r@.waiting =~= Seq::<Pending<F>>::empty());
        r
    }

    proof fn lemma_registry_dom(&self)
        ensures
            self@.registry.dom() == self.registry@.dom(),
            self@.registry.len() == self.registry@.len(),
    {
        assert(self@.registry.dom() =~= self.registry@.dom());
    }

    /// Whether a job with this id waits for a permit.
    fn is_waiting(&self, id: usize) -> (r: bool)
        ensures
            r == self@.is_waiting(id),
    {
        let mut i: usize = 0;
        while i < self.waiting.len()
            invariant
                i <= self.waiting@.len(),
                forall|k: int| 0 <= k < i ==> self@.waiting[k].id != id,
            decreases self.waiting@.len() - i,
        {
            if self.waiting[i].id == id {
                assert(self@.waiting[i as int].id == id);
                return true;
            }
            i = i + 1;
        }
        false
    }

    /// Hands a job to the engine: it starts at once when a permit is free and waits
    /// otherwise. A job whose id is already running or waiting is handed back.
    pub fn submit(&mut self, job: GameInfo<F>) -> (r: Admission<F>)
        requires
            old(self).wf(),
        ensures
            final(self).wf(),
            final(self)@ == old(self)@.submit(job@),
            match r {
                Admission::Start(l) => {
                    &&& !old(self)@.is_known(job@.id)
                    &&& old(self)@.registry.len() < old(self)@.capacity
                    &&& l.id == job@.id
                    &&& l.body == job@.body
                },
                Admission::Queued => !old(self)@.is_known(job@.id) && old(self)@.registry.len()
                    >= old(self)@.capacity,
                Admission::Duplicate(j) => old(self)@.is_known(job@.id) && j == job,
            },
    {
        proof {
            lemma_submit_keeps_invariant(self@, job@);
            self.lemma_registry_dom();
        }
        let id = job.id;
        if self.registry.contains_key(&id) || self.is_waiting(id) {
            return Admission::Duplicate(job);
        }
        if self.registry.len() < self.capacity {
            let GameInfo { id, name, fut } = job;
            self.registry.insert(id, name);
            self.order.push(id);
            assert(self@.registry =~= old(self)@.registry.insert(id, job@.name));
            assert(self.order@.no_duplicates()) by {
                assert(!old(self).order@.contains(id));
                assert forall|a: int, b: int|
                    0 <= a < b < self.order@.len() implies self.order@[a] != self.order@[b] by {
                    if b == self.order@.len() - 1 {
                        assert(old(self).order@.contains(self.order@[a]));
                    } else {
                        assert(old(self).order@[a] == self.order@[a]);
                        assert(old(self).order@[b] == self.order@[b]);
                    }
                }
            }
            assert forall|x: usize| self.registry@.contains_key(x) <==> self.order@.contains(x) by {
                if old(self).order@.contains(x) {
                    let k = choose|k: int| 0 <= k < old(self).order@.len() && old(self).order@[k] == x;
                    assert(self.order@[k] == x);
                }
                if self.order@.contains(x) && x != id {
                    let k = choose|k: int| 0 <= k < self.order@.len() && self.order@[k] == x;
                    assert(old(self).order@[k] == x);
                }
                assert(self.order@[self.order@.len() - 1] == id);
            }
            Admission::Start(Launch { id, body: fut })
        } else {
            self.waiting.push(job);
            assert(self@.waiting =~= old(self)@.waiting.push(job@));
            Admission::Queued
        }
    }

    /// Reports that the session `id` has ended, whether its body returned or faulted. Its
    /// registry entry and permit are released; when a job was waiting, the longest-waiting
    /// one takes the permit and is returned to be run.
    pub fn finish(&mut self, id: usize) -> (r: Option<Launch<F>>)
        requires
            old(self).wf(),
        ensures
            final(self).wf(),
            final(self)@ == old(self)@.finish(id),
            match r {
                Some(l) => {
                    &&& finish_starts_next(old(self)@, id)
                    &&& l.id == old(self)@.waiting[0].id
                    &&& l.body == old(self)@.waiting[0].body
                },
                None => !finish_starts_next(old(self)@, id),
            },
    {
        proof {
            lemma_finish_keeps_invariant(self@, id);
        }
        self.registry.remove(&id);
        remove_id(&mut self.order, id);
        assert(self@.registry =~= old(self)@.registry.remove(id));
        proof {
            self.lemma_registry_dom();
        }
        if self.waiting.len() > 0 && self.registry.len() < self.capacity {
            let job = self.waiting.remove(0);
            assert(self@.waiting =~= old(self)@.waiting.drop_first());
            let GameInfo { id: next, name, fut } = job;
            let ghost mid = self.order@;
            proof {
                assert(!self.registry@.contains_key(next));
                assert(!mid.contains(next));
            }
            self.registry.insert(next, name);
            self.order.push(next);
            assert(self.order@.no_duplicates()) by {
                assert forall|a: int, b: int|
                    0 <= a < b < self.order@.len() implies self.order@[a] != self.order@[b] by {
                    if b == self.order@.len() - 1 {
                        assert(mid.contains(self.order@[a]));
                    } else {
                        assert(mid[a] == self.order@[a]);
                        assert(mid[b] == self.order@[b]);
                    }
                }
            }
            assert forall|x: usize| self.registry@.contains_key(x) <==> self.order@.contains(x) by {
                if mid.contains(x) {
                    let k = choose|k: int| 0 <= k < mid.len() && mid[k] == x;
                    assert(self.order@[k] == x);
                }
                if self.order@.contains(x) && x != next {
                    let k = choose|k: int| 0 <= k < self.order@.len() && self.order@[k] == x;
                    assert(mid[k] == x);
                }
                assert(self.order@[self.order@.len() - 1] == next);
            }
            assert(self@.registry =~= old(self)@.registry.remove(id).insert(
                old(self)@.waiting[0].id,
                old(self)@.waiting[0].name,
            ));
            Some(Launch { id: next, body: fut })
        } else {
            None
        }
    }

    /// The number of permits.
    pub fn capacity(&self) -> (r: usize)
        ensures
            r == self@.capacity,
    {
        self.capacity
    }

    /// The number of running sessions, that is of permits held.
    pub fn running(&self) -> (r: usize)
        ensures
            r == self@.registry.len(),
    {
        proof {
            self.lemma_registry_dom();
        }
        self.registry.len()
    }

    /// The number of jobs waiting for a permit.
    pub fn waiting(&self) -> (r: usize)
        ensures
            r == self@.waiting.len(),
    {
        self.waiting.len()
    }

    /// Whether the session `id` is running, that is present in the registry.
    pub fn is_running(&self, id: usize) -> (r: bool)
        ensures
            r == self@.registry.contains_key(id),
    {
        self.registry.contains_key(&id)
    }

    /// The names of the running sessions, one per registry entry: as a multiset, the result
    /// holds exactly the registry's names.
    pub fn names(&self) -> (r: Vec<String>)
        requires
            self.wf(),
        ensures
            r@.len() == self@.registry.len(),
            exists|ids: Seq<usize>|
                {
                    &&& ids.no_duplicates()
                    &&& ids.len() == r@.len()
                    &&& forall|id: usize| self@.registry.contains_key(id) <==> ids.contains(id)
                    &&& forall|i: int|
                        0 <= i < ids.len() ==> (#[trigger] r@[i])@ == self@.registry[ids[i]]
                },
    {
        proof {
            self.lemma_registry_dom();
        }
        let mut out: Vec<String> = Vec::new();
        let mut i: usize = 0;
        while i < self.order.len()
            invariant
                self.wf(),
                i <= self.order@.len(),
                out@.len() == i,
                forall|k: int| 0 <= k < i ==> (#[trigger] out@[k])@ == self@.registry[self.order@[k]],
            decreases self.order@.len() - i,
        {
            let id = self.order[i];
            assert(self.order@.contains(id));
            match self.registry.get(&id) {
                Some(name) => {
                    out.push(name.clone());
                },
                None => {
                    proof {
                        assert(false);
                    }
                    out.push(String::new());
                },
            }
            i = i + 1;
        }
        assert(forall|id: usize| self@.registry.contains_key(id) <==> self.order@.contains(id));
        out
    }

    /// A snapshot of the registry: running session ids and their names.
    pub fn snapshot(&self) -> (r: HashMap<usize, String>)
        ensures
            r@.map_values(|s: String| s@) == self@.registry,
    {
        self.registry.clone()
    }
}

/// Removes `id` from a list of distinct ids, keeping the order of the others.
fn remove_id(order: &mut Vec<usize>, id: usize)
    requires
        old(order)@.no_duplicates(),
    ensures
        final(order)@.no_duplicates(),
        final(order)@.len() == old(order)@.len() - (if old(order)@.contains(id) {
            1int
        } else {
            0int
        }),
        forall|x: usize| final(order)@.contains(x) <==> (old(order)@.contains(x) && x != id),
{
    let mut i: usize = 0;
    while i < order.len()
        invariant
            i <= order@.len(),
            order@ == old(order)@,
            old(order)@.no_duplicates(),
            forall|k: int| 0 <= k < i ==> order@[k] != id,
        decreases order@.len() - i,
    {
        if order[i] == id {
            let ghost before = order@;
            order.remove(i);
            proof {
                assert(before[i as int] == id);
                assert(forall|k: int| 0 <= k < order@.len() ==> #[trigger] order@[k] == (if k < i {
                    before[k]
                } else {
                    before[k + 1]
                }));
                assert forall|a: int, b: int|
                    0 <= a < b < order@.len() implies order@[a] != order@[b] by {
                    let a0 = if a < i { a } else { a + 1 };
                    let b0 = if b < i { b } else { b + 1 };
                    assert(order@[a] == before[a0]);
                    assert(order@[b] == before[b0]);
                    assert(a0 != b0 && 0 <= a0 < before.len() && 0 <= b0 < before.len());
                    assert(before[a0] != before[b0]);
                }
                assert forall|x: usize| order@.contains(x) <==> (before.contains(x) && x != id) by {
                    if order@.contains(x) {
                        let k = choose|k: int| 0 <= k < order@.len() && order@[k] == x;
                        let k0 = if k < i { k } else { k + 1 };
                        assert(before[k0] == x);
                        assert(k0 != i);
                        assert(before.contains(x));
                    }
                    if before.contains(x) && x != id {
                        let k = choose|k: int| 0 <= k < before.len() && before[k] == x;
                        assert(k != i);
                        if k < i {
                            assert(order@[k] == x);
                        } else {
                            assert(order@[k - 1] == x);
                        }
                        assert(order@.contains(x));
                    }
                }
            }
            return;
        }
        i = i + 1;
    }
}

/// Submitting a job keeps the engine's invariant; in particular the registry never holds
/// more sessions than the engine has permits.
pub proof fn lemma_submit_keeps_invariant<F>(s: EngineState<F>, job: Pending<F>)
    requires
        s.inv(),
    ensures
        s.submit(job).inv(),
        s.submit(job).registry.len() <= s.capacity,
{
    let t = s.submit(job);
    if !s.is_known(job.id) {
        if s.registry.len() < s.capacity {
            assert(s.waiting.len() == 0);
        } else {
            assert forall|i: int| 0 <= i < t.waiting.len() implies !t.registry.contains_key(
                (#[trigger] t.waiting[i]).id,
            ) by {
                if i < s.waiting.len() {
                    assert(t.waiting[i] == s.waiting[i]);
                }
            }
            assert forall|i: int, j: int| 0 <= i < j < t.waiting.len() implies (#[trigger] t.waiting[i]).id
                != (#[trigger] t.waiting[j]).id by {
                if j == s.waiting.len() {
                    assert(t.waiting[i] == s.waiting[i]);
                }
            }
        }
    }
}

/// Ending a session keeps the engine's invariant; in particular the registry never holds
/// more sessions than the engine has permits.
pub proof fn lemma_finish_keeps_invariant<F>(s: EngineState<F>, id: usize)
    requires
        s.inv(),
    ensures
        s.finish(id).inv(),
        s.finish(id).registry.len() <= s.capacity,
{
    let freed = s.registry.remove(id);
    let t = s.finish(id);
    if s.registry.contains_key(id) {
        assert(freed.len() == s.registry.len() - 1);
    } else {
        assert(freed =~= s.registry);
    }
    if finish_starts_next(s, id) {
        let head = s.waiting[0];
        assert(!freed.contains_key(head.id));
        assert(t.registry.len() == freed.len() + 1);
        assert forall|i: int| 0 <= i < t.waiting.len() implies !t.registry.contains_key(
            (#[trigger] t.waiting[i]).id,
        ) by {
            assert(t.waiting[i] == s.waiting[i + 1]);
        }
        assert forall|i: int, j: int| 0 <= i < j < t.waiting.len() implies (#[trigger] t.waiting[i]).id
            != (#[trigger] t.waiting[j]).id by {
            assert(t.waiting[i] == s.waiting[i + 1]);
            assert(t.waiting[j] == s.waiting[j + 1]);
        }
    }
}

/// Every running session leaves the registry when it ends: after `finish(id)` the id is
/// absent from the registry, whichever job took the freed permit.
pub proof fn lemma_finished_session_leaves_registry<F>(s: EngineState<F>, id: usize)
    requires
        s.inv(),
    ensures
        !s.finish(id).registry.contains_key(id),
{
    if finish_starts_next(s, id) {
        assert(!s.registry.contains_key(s.waiting[0].id));
        if s.waiting[0].id == id {
            assert(s.registry.remove(id) =~= s.registry);
        }
    }
}

/// Submitting never fails for want of a permit: a job with a fresh id is running at once or
/// waits at the end of the queue, and a job whose id is already running or waiting (ids are
/// unique) leaves the engine unchanged.
pub proof fn lemma_submitted_job_is_kept<F>(s: EngineState<F>, job: Pending<F>)
    requires
        s.inv(),
    ensures
        !s.is_known(job.id) ==> s.submit(job).registry.contains_key(job.id) || s.submit(
            job,
        ).waiting == s.waiting.push(job),
        s.is_known(job.id) ==> s.submit(job) == s,
{
}

/// While jobs wait, each end of a running session starts the longest-waiting job and moves
/// every other waiting job one place forward.
pub proof fn lemma_finish_starts_longest_waiting<F>(s: EngineState<F>, id: usize)
    requires
        s.inv(),
        s.registry.contains_key(id),
        s.waiting.len() > 0,
    ensures
        s.finish(id).registry.contains_key(s.waiting[0].id),
        s.finish(id).registry[s.waiting[0].id] == s.waiting[0].name,
        s.finish(id).waiting == s.waiting.drop_first(),
{
    assert(s.registry.remove(id).len() == s.registry.len() - 1);
}

/// The state after the sessions `ids` end, one after the other.
pub open spec fn finish_all<F>(s: EngineState<F>, ids: Seq<usize>) -> EngineState<F>
    decreases ids.len(),
{
    if ids.len() == 0 {
        s
    } else {
        finish_all(s.finish(ids[0]), ids.drop_first())
    }
}

/// Each of `ids` is running when it is reported as ended.
pub open spec fn each_running_when_finished<F>(s: EngineState<F>, ids: Seq<usize>) -> bool
    decreases ids.len(),
{
    ids.len() == 0 || (s.registry.contains_key(ids[0]) && each_running_when_finished(
        s.finish(ids[0]),
        ids.drop_first(),
    ))
}

/// A job waiting at position `k` runs once `k + 1` running sessions have ended: no job
/// waits forever while sessions keep finishing.
pub proof fn lemma_waiting_job_eventually_runs<F>(s: EngineState<F>, ids: Seq<usize>, k: int)
    requires
        s.inv(),
        0 <= k < s.waiting.len(),
        ids.len() == k + 1,
        each_running_when_finished(s, ids),
    ensures
        finish_all(s, ids).registry.contains_key(s.waiting[k].id),
    decreases k,
{
    let t = s.finish(ids[0]);
    lemma_finish_keeps_invariant(s, ids[0]);
    lemma_finish_starts_longest_waiting(s, ids[0]);
    if k == 0 {
        assert(finish_all(t, ids.drop_first()) == t);
    } else {
        assert(t.waiting[k - 1] == s.waiting[k]);
        lemma_waiting_job_eventually_runs(t, ids.drop_first(), k - 1);
    }
}

/// The state after the jobs `jobs` are submitted, one after the other.
pub open spec fn submit_all<F>(s: EngineState<F>, jobs: Seq<Pending<F>>) -> EngineState<F>
    decreases jobs.len(),
{
    if jobs.len() == 0 {
        s
    } else {
        submit_all(s.submit(jobs[0]), jobs.drop_first())
    }
}

/// Jobs with distinct, fresh ids that are submitted while every permit is held are all kept:
/// they wait in the order they were submitted, behind the jobs already waiting, and the
/// registry does not change.
pub proof fn lemma_jobs_wait_in_submission_order<F>(s: EngineState<F>, jobs: Seq<Pending<F>>)
    requires
        s.inv(),
        s.registry.len() >= s.capacity,
        forall|i: int, j: int|
            0 <= i < j < jobs.len() ==> (#[trigger] jobs[i]).id != (#[trigger] jobs[j]).id,
        forall|i: int| 0 <= i < jobs.len() ==> !s.is_known((#[trigger] jobs[i]).id),
    ensures
        submit_all(s, jobs).inv(),
        submit_all(s, jobs).registry == s.registry,
        submit_all(s, jobs).waiting == s.waiting + jobs,
    decreases jobs.len(),
{
    if jobs.len() == 0 {
        assert(s.waiting + jobs =~= s.waiting);
    } else {
        let t = s.submit(jobs[0]);
        let rest = jobs.drop_first();
        assert(!s.is_known(jobs[0].id));
        lemma_submit_keeps_invariant(s, jobs[0]);
        assert(t.waiting == s.waiting.push(jobs[0]));
        assert forall|i: int| 0 <= i < rest.len() implies !t.is_known((#[trigger] rest[i]).id) by {
            assert(rest[i] == jobs[i + 1]);
            assert(!s.is_known(jobs[i + 1].id));
            if t.is_waiting(rest[i].id) {
                let k = choose|k: int| 0 <= k < t.waiting.len() && (#[trigger] t.waiting[k]).id == rest[i].id;
                if k < s.waiting.len() {
                    assert(t.waiting[k] == s.waiting[k]);
                } else {
                    assert(t.waiting[k] == jobs[0]);
                }
            }
        }
        assert forall|i: int, j: int| 0 <= i < j < rest.len() implies (#[trigger] rest[i]).id
            != (#[trigger] rest[j]).id by {
            assert(rest[i] == jobs[i + 1]);
            assert(rest[j] == jobs[j + 1]);
        }
        lemma_jobs_wait_in_submission_order(t, rest);
        assert(s.waiting.push(jobs[0]) + rest =~= s.waiting + jobs);
    }
}

} // verus!
