//! The load balancer: a fixed backend pool, a selection strategy over it,
//! and per-backend health tracking that selection respects.
use vstd::prelude::*;

use crate::backend::Backend;
use crate::backend::BackendModel;
use crate::backend::DEFAULT_WEIGHT;
use crate::health::spec_observe;
use crate::health::Health;
use crate::health::HealthCheck;
use crate::strategy::Strategy;

verus! {

/// The first pool slot holding a backend of the given identity; -1 when no
/// slot does.
pub open spec fn spec_find_backend(pool: Seq<Backend>, b: BackendModel) -> int
    decreases pool.len(),
{
    if pool.len() == 0 {
        -1
    } else if pool[0]@ == b {
        0
    } else {
        let r = spec_find_backend(pool.drop_first(), b);
        if r < 0 {
            -1
        } else {
            r + 1
        }
    }
}

/// What [`spec_find_backend`] finds: the first matching slot when one
/// exists, and -1 exactly when none does.
pub proof fn lemma_find_backend(pool: Seq<Backend>, b: BackendModel)
    ensures
        spec_find_backend(pool, b) >= 0 ==> {
            &&& 0 <= spec_find_backend(pool, b) < pool.len()
            &&& pool[spec_find_backend(pool, b)]@ == b
        },
        spec_find_backend(pool, b) < 0 ==> forall|j: int|
            0 <= j < pool.len() ==> (#[trigger] pool[j])@ != b,
    decreases pool.len(),
{
    if pool.len() > 0 && pool[0]@ != b {
        lemma_find_backend(pool.drop_first(), b);
        let r = spec_find_backend(pool.drop_first(), b);
        if r < 0 {
            assert forall|j: int| 0 <= j < pool.len() implies (#[trigger] pool[j])@ != b by {
                if j > 0 {
                    assert(pool.drop_first()[j - 1] == pool[j]);
                }
            }
        } else {
            assert(pool.drop_first()[r] == pool[r + 1]);
        }
    }
}

/// A record of one observation: the record after is the record before with
/// some observation applied at some positive flip threshold.
pub open spec fn spec_observed_from(pre: Health, post: Health) -> bool {
    exists|ok: bool, t: usize| t >= 1 && post == #[trigger] spec_observe(pre, ok, t)
}

/// The backend pool with its health table and the optional probe that feeds
/// it.
struct Backends<H> {
    health_check: Option<H>,
    backends: Vec<Backend>,
    health: Vec<Health>,
}

impl<H: HealthCheck> Backends<H> {
    /// One health record per pool slot.
    spec fn wf(&self) -> bool {
        self.health@.len() == self.backends@.len()
    }

    /// Whether a backend of the given identity may serve traffic: the stored
    /// flag of its first pool slot, and healthy by default when it has none.
    spec fn spec_is_healthy(&self, b: BackendModel) -> bool {
        let i = spec_find_backend(self.backends@, b);
        if i >= 0 {
            self.health@[i].healthy
        } else {
            true
        }
    }

    /// A fresh tracker over the pool: no probe configured and every backend
    /// healthy.
    fn new(backends: Vec<Backend>) -> (r: Self)
        ensures
            r.wf(),
            r.backends@ == backends@,
            r.health_check is None,
            forall|i: int|
                0 <= i < r.health@.len() ==> (#[trigger] r.health@[i]).healthy && r.health@[
                i].consecutive_count == 0,
    {
        let n = backends.len();
        let mut health: Vec<Health> = Vec::new();
        for i in 0..n
            invariant
                health@.len() == i,
                forall|j: int|
                    0 <= j < i ==> (#[trigger] health@[j]).healthy && health@[
                    j].consecutive_count == 0,
        {
            health.push(Health::default());
        }
        Backends { backends, health_check: None, health }
    }

    fn set_health_check(&mut self, health_check: H)
        ensures
            final(self).backends@ == old(self).backends@,
            final(self).health@ == old(self).health@,
            final(self).health_check == Some(health_check),
    {
        self.health_check = Some(health_check);
    }

    /// Probe one backend and fold the outcome into its health record, at the
    /// flip threshold the probe dictates for that outcome.
    fn check_and_report(backend: &Backend, health_check: &H, health: &mut Health)
        ensures
            spec_observed_from(*old(health), *final(health)),
    {
        let ok = health_check.check(backend).is_ok();
        let threshold = health_check.health_threshold(ok);
        let _flipped = health.observe_health(ok, threshold);
        proof {
            assert(*final(health) == spec_observe(*old(health), ok, threshold));
        }
    }

    /// Probe every backend in pool order; with no probe configured this does
    /// nothing at all.
    fn run_health_check(&mut self)
        requires
            old(self).wf(),
        ensures
            final(self).wf(),
            final(self).backends@ == old(self).backends@,
            final(self).health_check == old(self).health_check,
            old(self).health_check is None ==> *final(self) == *old(self),
            forall|i: int|
                0 <= i < old(self).health@.len() ==> spec_observed_from(
                    old(self).health@[i],
                    #[trigger] final(self).health@[i],
                ) || final(self).health@[i] == old(self).health@[i],
            old(self).health_check is Some ==> forall|i: int|
                0 <= i < old(self).health@.len() ==> spec_observed_from(
                    old(self).health@[i],
                    #[trigger] final(self).health@[i],
                ),
    {
        if self.health_check.is_none() {
            return ;
        }
        let n = self.backends.len();
        let mut i: usize = 0;
        while i < n
            invariant
                i <= n,
                self.wf(),
                n == self.backends@.len(),
                self.backends@ == old(self).backends@,
                self.health_check == old(self).health_check,
                self.health_check is Some,
                forall|j: int| i <= j < n ==> self.health@[j] == old(self).health@[j],
                forall|j: int|
                    0 <= j < i ==> spec_observed_from(
                        old(self).health@[j],
                        #[trigger] self.health@[j],
                    ),
            decreases n - i,
        {
            let mut h = self.health[i];
            match &self.health_check {
                Some(hc) => Self::check_and_report(&self.backends[i], hc, &mut h),
                None => (),
            }
            self.health[i] = h;
            i = i + 1;
        }
    }

    fn is_healthy(&self, backend: &Backend) -> (r: bool)
        requires
            self.wf(),
        ensures
            r == self.spec_is_healthy(backend@),
    {
        let n = self.backends.len();
        let mut i: usize = 0;
        proof {
            lemma_find_backend(self.backends@, backend@);
        }
        while i < n
            invariant
                i <= n,
                self.wf(),
                n == self.backends@.len(),
                forall|j: int| 0 <= j < i ==> (#[trigger] self.backends@[j])@ != backend@,
            decreases n - i,
        {
            if self.backends[i].eq(backend) {
                proof {
                    lemma_find_backend_prefix(self.backends@, backend@, i as int);
                }
                return self.health[i].healthy();
            }
            i = i + 1;
        }
        true
    }
}

/// [`spec_find_backend`] finds exactly the first matching slot: when every
/// slot before `i` misses and slot `i` matches, it finds `i`.
proof fn lemma_find_backend_prefix(pool: Seq<Backend>, b: BackendModel, i: int)
    requires
        0 <= i < pool.len(),
        pool[i]@ == b,
        forall|j: int| 0 <= j < i ==> (#[trigger] pool[j])@ != b,
    ensures
        spec_find_backend(pool, b) == i,
    decreases i,
{
    if i > 0 {
        assert forall|j: int| 0 <= j < i - 1 implies (#[trigger] pool.drop_first()[j])@ != b by {
            assert(pool.drop_first()[j] == pool[j + 1]);
        }
        assert(pool.drop_first()[i - 1] == pool[i]);
        lemma_find_backend_prefix(pool.drop_first(), b, i - 1);
    }
}

#[verifier::external_type_specification]
#[verifier::external_body]
pub struct ExInvalidUri(http::uri::InvalidUri);

/// Whether an address is a well-formed URI.
pub uninterp spec fn spec_uri_ok(s: Seq<char>) -> bool;

/// The canonical printed form of a well-formed URI.
pub uninterp spec fn spec_uri_canonical(s: Seq<char>) -> Seq<char>;

/// Relies on http::Uri: parsing accepts an address exactly when it is a
/// well-formed URI, and printing the parsed value yields its canonical form,
/// a function of the address alone.
#[verifier::external_body]
fn parse_uri(addr: &str) -> (r: Result<String, http::uri::InvalidUri>)
    ensures
        r is Ok <==> spec_uri_ok(addr@),
        r matches Ok(s) ==> s@ == spec_uri_canonical(addr@),
{
    match addr.parse::<http::Uri>() {
        Ok(u) => Ok(u.to_string()),
        Err(e) => Err(e),
    }
}

/// A strategy's selection filtered by health: a selected backend always
/// stands in the pool and is healthy by the pool's own table.
pub open spec fn spec_selected<T: Strategy, H: HealthCheck>(
    lb: LoadBalancer<T, H>,
    r: Option<Backend>,
) -> bool {
    r matches Some(b) ==> (exists|i: int|
        0 <= i < lb.spec_pool().len() && b == lb.spec_pool()[i]) && lb.spec_is_healthy(b@)
}

/// Law: once every backend in the pool is unhealthy, selection yields
/// nothing — any result that satisfies the selection contract is `None`.
pub proof fn lemma_all_unhealthy_selects_none<T: Strategy, H: HealthCheck>(
    lb: LoadBalancer<T, H>,
    r: Option<Backend>,
)
    requires
        forall|i: int|
            0 <= i < lb.spec_pool().len() ==> !lb.spec_is_healthy((#[trigger] lb.spec_pool()[i])@),
        spec_selected(lb, r),
    ensures
        r is None,
{
    match r {
        Some(b) => {
            let i = choose|i: int| 0 <= i < lb.spec_pool().len() && b == lb.spec_pool()[i];
            assert(!lb.spec_is_healthy(lb.spec_pool()[i]@));
        },
        None => {},
    }
}

/// A selection strategy composed with the backend pool and its health table;
/// selection skips backends that the health table marks unhealthy.
pub struct LoadBalancer<T, H> {
    strategy: T,
    backends: Backends<H>,
    /// How often the background loop re-checks health, in milliseconds; with
    /// none configured the loop checks exactly once.
    pub health_check_interval: Option<u64>,
}

impl<T: Strategy, H: HealthCheck> LoadBalancer<T, H> {
    /// The strategy was built over this pool, and the health table covers
    /// it.
    pub closed spec fn wf(&self) -> bool {
        &&& self.backends.wf()
        &&& self.strategy.pool() == self.backends.backends@
    }

    /// The strategy's state.
    pub closed spec fn spec_strategy(&self) -> T {
        self.strategy
    }

    /// What selection does with a deterministic strategy in state `s` and
    /// `budget` candidates left to examine: ask for the next candidate, stop
    /// on the first healthy one (or when the strategy offers none), and skip
    /// an unhealthy one against the budget. Yields the strategy's final
    /// state and the selection.
    pub open spec fn spec_select_from(&self, s: T, budget: int) -> (T, Option<Backend>)
        decreases budget,
    {
        if budget <= 0 {
            (s, None)
        } else {
            match s.next_candidate() {
                None => (s.stepped(), None),
                Some(b) => if self.spec_is_healthy(b@) {
                    (s.stepped(), Some(b))
                } else {
                    self.spec_select_from(s.stepped(), budget - 1)
                },
            }
        }
    }

    /// The backend pool, in order.
    pub closed spec fn spec_pool(&self) -> Seq<Backend> {
        self.backends.backends@
    }

    /// The health records, one per pool slot.
    pub closed spec fn spec_health(&self) -> Seq<Health> {
        self.backends.health@
    }

    /// Whether a health check is configured.
    pub closed spec fn spec_has_check(&self) -> bool {
        self.backends.health_check is Some
    }

    /// The configured background re-check interval, in milliseconds.
    pub closed spec fn spec_interval(&self) -> Option<u64> {
        self.health_check_interval
    }

    /// Whether a backend of the given identity may serve traffic: the stored
    /// flag of its first pool slot, and healthy by default when it has none.
    pub open spec fn spec_is_healthy(&self, b: BackendModel) -> bool {
        let i = spec_find_backend(self.spec_pool(), b);
        if i >= 0 {
            self.spec_health()[i].healthy
        } else {
            true
        }
    }

    /// A balancer over the given pool: the strategy is built over it, no
    /// health check is configured, and every backend starts healthy.
    pub fn new(backends: Vec<Backend>) -> (r: Self)
        ensures
            r.wf(),
            r.spec_pool() == backends@,
            r.spec_strategy().pool() == r.spec_pool(),
            r.spec_strategy().freshly_built(backends@),
            !r.spec_has_check(),
            r.spec_interval() is None,
            r.spec_health().len() == backends@.len(),
            forall|i: int|
                0 <= i < r.spec_health().len() ==> (#[trigger] r.spec_health()[i]).healthy,
    {
        let strategy = T::build(&backends);
        LoadBalancer { strategy, backends: Backends::new(backends), health_check_interval: None }
    }

    /// A balancer over one backend per address, each at the default weight;
    /// an address that is not a well-formed URI fails construction with the
    /// parse error.
    pub fn try_from_vec(backends: &[&str]) -> (r: Result<Self, http::uri::InvalidUri>)
        ensures
            r is Ok <==> (forall|i: int|
                0 <= i < backends@.len() ==> spec_uri_ok((#[trigger] backends@[i])@)),
            r matches Ok(lb) ==> {
                &&& lb.wf()
                &&& lb.spec_strategy().pool() == lb.spec_pool()
                &&& lb.spec_strategy().freshly_built(lb.spec_pool())
                &&& !lb.spec_has_check()
                &&& lb.spec_pool().len() == backends@.len()
                &&& forall|i: int|
                    0 <= i < backends@.len() ==> (#[trigger] lb.spec_pool()[i])@.addr
                        == spec_uri_canonical(backends@[i]@) && lb.spec_pool()[i]@.weight
                        == DEFAULT_WEIGHT
                &&& forall|i: int|
                    0 <= i < lb.spec_health().len() ==> (#[trigger] lb.spec_health()[i]).healthy
            },
    {
        let n = backends.len();
        let mut pool: Vec<Backend> = Vec::new();
        let mut i: usize = 0;
        while i < n
            invariant
                i <= n,
                n == backends@.len(),
                pool@.len() == i,
                forall|j: int| 0 <= j < i ==> spec_uri_ok((#[trigger] backends@[j])@),
                forall|j: int|
                    0 <= j < i ==> (#[trigger] pool@[j])@.addr == spec_uri_canonical(
                        backends@[j]@,
                    ) && pool@[j]@.weight == DEFAULT_WEIGHT,
            decreases n - i,
        {
            let addr = backends[i];
            match parse_uri(addr) {
                Ok(s) => pool.push(Backend::new(s)),
                Err(e) => {
                    return Err(e);
                },
            }
            i = i + 1;
        }
        Ok(Self::new(pool))
    }

    /// Configure the probe used by [`Self::run_health_check`]; the pool and
    /// the health records are untouched.
    pub fn set_health_check(&mut self, health_check: H)
        requires
            old(self).wf(),
        ensures
            final(self).wf(),
            final(self).spec_pool() == old(self).spec_pool(),
            final(self).spec_health() == old(self).spec_health(),
            final(self).spec_has_check(),
            final(self).spec_strategy() == old(self).spec_strategy(),
            final(self).spec_interval() == old(self).spec_interval(),
    {
        self.backends.set_health_check(health_check);
    }

    /// Probe every backend in pool order and fold each outcome into its
    /// health record; with no health check configured, the balancer is left
    /// exactly as it was.
    pub fn run_health_check(&mut self)
        requires
            old(self).wf(),
        ensures
            final(self).wf(),
            final(self).spec_pool() == old(self).spec_pool(),
            final(self).spec_has_check() == old(self).spec_has_check(),
            final(self).spec_strategy() == old(self).spec_strategy(),
            final(self).spec_interval() == old(self).spec_interval(),
            !old(self).spec_has_check() ==> final(self).spec_health() == old(self).spec_health(),
            old(self).spec_has_check() ==> forall|i: int|
                0 <= i < old(self).spec_health().len() ==> spec_observed_from(
                    old(self).spec_health()[i],
                    #[trigger] final(self).spec_health()[i],
                ),
    {
        self.backends.run_health_check();
    }

    /// Ask the strategy for up to `max_iterations` candidates and return the
    /// first healthy one; `None` when the pool is empty, the strategy offers
    /// nothing, or every candidate seen was unhealthy. With a deterministic
    /// strategy the selection and the strategy's final state are exactly
    /// [`Self::spec_select_from`] of the starting state.
    pub fn select_with(&mut self, max_iterations: u16) -> (r: Option<Backend>)
        requires
            old(self).wf(),
        ensures
            final(self).wf(),
            final(self).spec_pool() == old(self).spec_pool(),
            final(self).spec_health() == old(self).spec_health(),
            final(self).spec_has_check() == old(self).spec_has_check(),
            spec_selected(*old(self), r),
            old(self).spec_pool().len() == 0 ==> r is None,
            T::deterministic() ==> (final(self).spec_strategy(), r) == old(self).spec_select_from(
                old(self).spec_strategy(),
                max_iterations as int,
            ),
    {
        let mut k: u16 = 0;
        while k < max_iterations
            invariant
                self.wf(),
                k <= max_iterations,
                self.backends == old(self).backends,
                self.strategy.pool() == old(self).strategy.pool(),
                self.health_check_interval == old(self).health_check_interval,
                T::deterministic() ==> old(self).spec_select_from(
                    old(self).spec_strategy(),
                    max_iterations as int,
                ) == old(self).spec_select_from(self.strategy, (max_iterations - k) as int),
            decreases max_iterations - k,
        {
            let ghost pre_strategy = self.strategy;
            let ghost pre_pool = self.strategy.pool();
            let ghost budget = (max_iterations - k) as int;
            let Some(backend) = self.strategy.get_next() else {
                proof {
                    if T::deterministic() {
                        assert(old(self).spec_select_from(pre_strategy, budget) == (
                        self.strategy,
                        None::<Backend>,
                        ));
                    }
                }
                return None;
            };
            if self.backends.is_healthy(&backend) {
                proof {
                    let i = choose|i: int| 0 <= i < pre_pool.len() && backend == pre_pool[i];
                    assert(0 <= i < old(self).spec_pool().len() && backend == old(
                        self,
                    ).spec_pool()[i]);
                    if T::deterministic() {
                        assert(old(self).spec_select_from(pre_strategy, budget) == (
                        self.strategy,
                        Some(backend),
                        ));
                    }
                }
                return Some(backend);
            }
            proof {
                if T::deterministic() {
                    assert(old(self).spec_select_from(pre_strategy, budget) == old(
                        self,
                    ).spec_select_from(self.strategy, budget - 1));
                }
            }
            k = k + 1;
        }
        None
    }

    /// One selection, bounded by the pool size so that an all-unhealthy pool
    /// terminates with `None`. With a deterministic strategy the selection is
    /// pinned exactly, so a healthy pool walked by round robin yields the
    /// round-robin sequence.
    pub fn next(&mut self) -> (r: Option<Backend>)
        requires
            old(self).wf(),
        ensures
            final(self).wf(),
            final(self).spec_pool() == old(self).spec_pool(),
            final(self).spec_health() == old(self).spec_health(),
            final(self).spec_has_check() == old(self).spec_has_check(),
            spec_selected(*old(self), r),
            old(self).spec_pool().len() == 0 ==> r is None,
            T::deterministic() ==> (final(self).spec_strategy(), r) == old(self).spec_select_from(
                old(self).spec_strategy(),
                (old(self).spec_pool().len() as u16) as int,
            ),
    {
        let n = self.backends.backends.len();
        self.select_with(#[verifier::truncate] (n as u16))
    }
}

} // verus!
