//! Restart budgets and the exponential backoff schedule.
//!
//! Delays are whole milliseconds and multipliers are fixed-point thousandths
//! (a multiplier of 2.0 is written 2000). Each step of the schedule rounds
//! down to a whole millisecond and is clamped to the maximum delay.

use vstd::prelude::*;

verus! {

/// Fixed-point scale of backoff multipliers: 1000 stands for 1.0.
pub const MULTIPLIER_SCALE: u32 = 1000;

pub open spec fn min_nat(a: nat, b: nat) -> nat {
    if a <= b {
        a
    } else {
        b
    }
}

/// Delay in milliseconds before the next restart of a worker that has already
/// been restarted `n` times: the first restart waits `base`, each later one
/// `multiplier / 1000` times the previous delay, never more than `max`.
pub open spec fn backoff_delay(base: nat, multiplier: nat, max: nat, n: nat) -> nat
    decreases n,
{
    if n == 0 {
        min_nat(base, max)
    } else {
        min_nat(max, backoff_delay(base, multiplier, max, (n - 1) as nat) * multiplier / 1000)
    }
}

/// Once one step of the schedule leaves the delay unchanged, it stays there.
proof fn lemma_backoff_fixed_point(base: nat, multiplier: nat, max: nat, k: nat, n: nat)
    requires
        k <= n,
        min_nat(max, backoff_delay(base, multiplier, max, k) * multiplier / 1000) == backoff_delay(
            base,
            multiplier,
            max,
            k,
        ),
    ensures
        backoff_delay(base, multiplier, max, n) == backoff_delay(base, multiplier, max, k),
    decreases n - k,
{
    if k < n {
        lemma_backoff_fixed_point(base, multiplier, max, k, (n - 1) as nat);
    }
}

proof fn lemma_backoff_at_most_max(base: nat, multiplier: nat, max: nat, n: nat)
    ensures
        backoff_delay(base, multiplier, max, n) <= max,
    decreases n,
{
    if n > 0 {
        lemma_backoff_at_most_max(base, multiplier, max, (n - 1) as nat);
    }
}

/// Computes `backoff_delay(base_ms, multiplier_milli, max_ms, restarts)`.
pub fn compute_backoff_delay(base_ms: u64, multiplier_milli: u32, max_ms: u64, restarts: u32) -> (r:
    u64)
    ensures
        r == backoff_delay(base_ms as nat, multiplier_milli as nat, max_ms as nat, restarts as nat),
{
    let ghost b = base_ms as nat;
    let ghost m = multiplier_milli as nat;
    let ghost x = max_ms as nat;
    let mut delay: u64 = if base_ms <= max_ms {
        base_ms
    } else {
        max_ms
    };
    let mut k: u32 = 0;
    while k < restarts
        invariant
            k <= restarts,
            b == base_ms as nat,
            m == multiplier_milli as nat,
            x == max_ms as nat,
            delay == backoff_delay(b, m, x, k as nat),
            delay <= max_ms,
        decreases restarts - k,
    {
        proof {
            assert((delay as int) * (multiplier_milli as int) <= (u64::MAX as int) * (
            u32::MAX as int)) by (nonlinear_arith)
                requires
                    delay <= u64::MAX,
                    multiplier_milli <= u32::MAX,
            ;
        }
        let product: u128 = (delay as u128) * (multiplier_milli as u128);
        assert(product == (delay as nat) * m);
        let scaled: u128 = product / (MULTIPLIER_SCALE as u128);
        let next: u64 = if scaled <= max_ms as u128 {
            scaled as u64
        } else {
            max_ms
        };
        assert(scaled == (delay as nat) * m / 1000);
        assert(backoff_delay(b, m, x, (k + 1) as nat) == min_nat(
            x,
            backoff_delay(b, m, x, k as nat) * m / 1000,
        ));
        assert(next == backoff_delay(b, m, x, (k + 1) as nat));
        if next == delay {
            proof {
                lemma_backoff_fixed_point(b, m, x, k as nat, restarts as nat);
            }
            return delay;
        }
        delay = next;
        k = k + 1;
    }
    delay
}

/// The schedule never decreases, and never exceeds the maximum, when the
/// multiplier is at least 1.0.
pub proof fn lemma_backoff_monotone_and_bounded(base: nat, multiplier: nat, max: nat, n: nat)
    requires
        multiplier >= 1000,
    ensures
        backoff_delay(base, multiplier, max, n) <= backoff_delay(base, multiplier, max, n + 1),
        backoff_delay(base, multiplier, max, n) <= max,
{
    let d = backoff_delay(base, multiplier, max, n);
    lemma_backoff_at_most_max(base, multiplier, max, n);
    assert(d * multiplier >= d * 1000) by (nonlinear_arith)
        requires
            multiplier >= 1000,
    ;
    assert(d * multiplier / 1000 >= d) by (nonlinear_arith)
        requires
            d * multiplier >= d * 1000,
    ;
    assert(backoff_delay(base, multiplier, max, n + 1) == min_nat(max, d * multiplier / 1000));
}

/// With a multiplier of exactly 1.0 every delay is the base delay.
pub proof fn lemma_backoff_constant_at_unit_multiplier(base: nat, max: nat, n: nat)
    requires
        base <= max,
    ensures
        backoff_delay(base, 1000, max, n) == base,
    decreases n,
{
    if n > 0 {
        lemma_backoff_constant_at_unit_multiplier(base, max, (n - 1) as nat);
        assert(base * 1000 / 1000 == base) by (nonlinear_arith);
    }
}

/// A zero base delay gives zero delay at every restart, whatever the multiplier.
pub proof fn lemma_backoff_zero_base(multiplier: nat, max: nat, n: nat)
    ensures
        backoff_delay(0, multiplier, max, n) == 0,
    decreases n,
{
    if n > 0 {
        lemma_backoff_zero_base(multiplier, max, (n - 1) as nat);
        assert(0 * multiplier / 1000 == 0) by (nonlinear_arith);
    }
}

pub open spec fn pow_nat(b: nat, e: nat) -> nat
    decreases e,
{
    if e == 0 {
        1
    } else {
        b * pow_nat(b, (e - 1) as nat)
    }
}

/// With a whole-number multiplier `k` the schedule is exactly
/// `min(max, base * k^n)`: no rounding takes place.
pub proof fn lemma_backoff_whole_multiplier(base: nat, k: nat, max: nat, n: nat)
    requires
        k >= 1,
    ensures
        backoff_delay(base, k * 1000, max, n) == min_nat(max, base * pow_nat(k, n)),
    decreases n,
{
    if n > 0 {
        let m = (n - 1) as nat;
        lemma_backoff_whole_multiplier(base, k, max, m);
        let d = backoff_delay(base, k * 1000, max, m);
        let p = base * pow_nat(k, m);
        assert(d * (k * 1000) / 1000 == d * k) by (nonlinear_arith);
        assert(base * pow_nat(k, n) == p * k) by (nonlinear_arith)
            requires
                pow_nat(k, n) == k * pow_nat(k, m),
                p == base * pow_nat(k, m),
        ;
        if p <= max {
            assert(d == p);
        } else {
            assert(d == max);
            assert(max * k >= max) by (nonlinear_arith)
                requires
                    k >= 1,
            ;
            assert(p * k >= p) by (nonlinear_arith)
                requires
                    k >= 1,
            ;
        }
    } else {
        assert(base * 1 == base);
    }
}

/// How many restarts a worker may have: a fixed number, or no limit.
#[derive(Debug, Clone, Copy, PartialEq, Eq, Structural)]
pub enum RestartPolicy {
    Limited(u32),
    Infinite,
}

impl RestartPolicy {
    /// A worker that has been restarted `restarts` times may be restarted again.
    pub open spec fn permits(self, restarts: nat) -> bool {
        match self {
            RestartPolicy::Limited(max) => restarts < max,
            RestartPolicy::Infinite => true,
        }
    }

    pub fn allows_restart(&self, restarts: u32) -> (r: bool)
        ensures
            r == self.permits(restarts as nat),
    {
        match self {
            RestartPolicy::Limited(max) => restarts < *max,
            RestartPolicy::Infinite => true,
        }
    }
}

/// Restart budget and backoff of in-process workers.
#[derive(Debug, Clone, Copy, PartialEq, Eq, Structural)]
pub struct ThreadRestartPolicy {
    pub max_restarts: u32,
    pub restart_delay_ms: u64,
    /// Thousandths: 2000 stands for a multiplier of 2.0.
    pub backoff_multiplier_milli: u32,
    pub max_restart_delay_ms: u64,
}

impl ThreadRestartPolicy {
    /// Multiplier at least 1.0 and base delay at most the maximum delay.
    pub open spec fn wf(self) -> bool {
        self.backoff_multiplier_milli >= MULTIPLIER_SCALE && self.restart_delay_ms
            <= self.max_restart_delay_ms
    }

    pub open spec fn spec_delay(self, restarts: nat) -> nat {
        backoff_delay(
            self.restart_delay_ms as nat,
            self.backoff_multiplier_milli as nat,
            self.max_restart_delay_ms as nat,
            restarts,
        )
    }

    /// Delay before the next restart of a worker restarted `restarts` times so far.
    pub fn delay_after(&self, restarts: u32) -> (r: u64)
        ensures
            r == self.spec_delay(restarts as nat),
    {
        compute_backoff_delay(
            self.restart_delay_ms,
            self.backoff_multiplier_milli,
            self.max_restart_delay_ms,
            restarts,
        )
    }
}

impl ThreadRestartPolicy {
    pub open spec fn spec_default() -> Self {
        ThreadRestartPolicy {
            max_restarts: 5,
            restart_delay_ms: 1000,
            backoff_multiplier_milli: 2000,
            max_restart_delay_ms: 60000,
        }
    }
}

impl Default for ThreadRestartPolicy {
    fn default() -> (r: Self)
        ensures
            r == ThreadRestartPolicy::spec_default(),
    {
        ThreadRestartPolicy {
            max_restarts: 5,
            restart_delay_ms: 1000,
            backoff_multiplier_milli: 2000,
            max_restart_delay_ms: 60000,
        }
    }
}

/// Restart budget and backoff of a configured child process.
#[derive(Debug, Clone, Copy, PartialEq, Eq, Structural)]
pub struct ProcessRestartPolicy {
    pub max_restarts: u32,
    pub restart_delay_ms: u64,
    /// Thousandths: 2000 stands for a multiplier of 2.0.
    pub backoff_multiplier_milli: u32,
    pub max_restart_delay_ms: u64,
}

impl ProcessRestartPolicy {
    /// Multiplier at least 1.0 and base delay at most the maximum delay.
    pub open spec fn wf(self) -> bool {
        self.backoff_multiplier_milli >= MULTIPLIER_SCALE && self.restart_delay_ms
            <= self.max_restart_delay_ms
    }

    pub open spec fn spec_delay(self, restarts: nat) -> nat {
        backoff_delay(
            self.restart_delay_ms as nat,
            self.backoff_multiplier_milli as nat,
            self.max_restart_delay_ms as nat,
            restarts,
        )
    }

    /// Delay before the next restart of a process restarted `restarts` times so far.
    pub fn delay_after(&self, restarts: u32) -> (r: u64)
        ensures
            r == self.spec_delay(restarts as nat),
    {
        compute_backoff_delay(
            self.restart_delay_ms,
            self.backoff_multiplier_milli,
            self.max_restart_delay_ms,
            restarts,
        )
    }
}

impl ProcessRestartPolicy {
    pub open spec fn spec_default() -> Self {
        ProcessRestartPolicy {
            max_restarts: 3,
            restart_delay_ms: 2000,
            backoff_multiplier_milli: 2000,
            max_restart_delay_ms: 60000,
        }
    }
}

impl Default for ProcessRestartPolicy {
    fn default() -> (r: Self)
        ensures
            r == ProcessRestartPolicy::spec_default(),
    {
        ProcessRestartPolicy {
            max_restarts: 3,
            restart_delay_ms: 2000,
            backoff_multiplier_milli: 2000,
            max_restart_delay_ms: 60000,
        }
    }
}

/// The counters that a list of (name, count) entries holds; a later entry
/// for a name hides an earlier one.
pub open spec fn counts_map(entries: Seq<(String, u32)>) -> Map<Seq<char>, u32>
    decreases entries.len(),
{
    if entries.len() == 0 {
        Map::empty()
    } else {
        counts_map(entries.drop_last()).insert(entries.last().0@, entries.last().1)
    }
}

pub open spec fn names_unique(entries: Seq<(String, u32)>) -> bool {
    forall|i: int, j: int|
        0 <= i < j < entries.len() ==> #[trigger] entries[i].0@ != #[trigger] entries[j].0@
}

proof fn lemma_counts_map_absent(entries: Seq<(String, u32)>, name: Seq<char>)
    requires
        forall|i: int| 0 <= i < entries.len() ==> #[trigger] entries[i].0@ != name,
    ensures
        !counts_map(entries).contains_key(name),
    decreases entries.len(),
{
    if entries.len() > 0 {
        let prefix = entries.drop_last();
        assert forall|i: int| 0 <= i < prefix.len() implies #[trigger] prefix[i].0@ != name by {
            assert(prefix[i] == entries[i]);
        }
        lemma_counts_map_absent(prefix, name);
        assert(entries[entries.len() - 1].0@ != name);
    }
}

proof fn lemma_counts_map_at(entries: Seq<(String, u32)>, i: int)
    requires
        names_unique(entries),
        0 <= i < entries.len(),
    ensures
        counts_map(entries).contains_key(entries[i].0@),
        counts_map(entries)[entries[i].0@] == entries[i].1,
    decreases entries.len(),
{
    if i < entries.len() - 1 {
        let prefix = entries.drop_last();
        assert(prefix[i] == entries[i]);
        assert(names_unique(prefix)) by {
            assert forall|a: int, b: int| 0 <= a < b < prefix.len() implies #[trigger] prefix[a].0@
                != #[trigger] prefix[b].0@ by {
                assert(prefix[a] == entries[a] && prefix[b] == entries[b]);
            }
        }
        lemma_counts_map_at(prefix, i);
        assert(entries[i].0@ != entries[entries.len() - 1].0@);
    }
}

proof fn lemma_counts_map_update(entries: Seq<(String, u32)>, i: int, entry: (String, u32))
    requires
        names_unique(entries),
        0 <= i < entries.len(),
        entry.0@ == entries[i].0@,
    ensures
        counts_map(entries.update(i, entry)) == counts_map(entries).insert(entry.0@, entry.1),
        names_unique(entries.update(i, entry)),
    decreases entries.len(),
{
    let updated = entries.update(i, entry);
    assert(names_unique(updated)) by {
        assert forall|a: int, b: int| 0 <= a < b < updated.len() implies #[trigger] updated[a].0@
            != #[trigger] updated[b].0@ by {
            assert(updated[a].0@ == entries[a].0@ && updated[b].0@ == entries[b].0@);
        }
    }
    if i == entries.len() - 1 {
        assert(updated.drop_last() =~= entries.drop_last());
        assert(counts_map(updated) =~= counts_map(entries).insert(entry.0@, entry.1));
    } else {
        let prefix = entries.drop_last();
        assert(names_unique(prefix)) by {
            assert forall|a: int, b: int| 0 <= a < b < prefix.len() implies #[trigger] prefix[a].0@
                != #[trigger] prefix[b].0@ by {
                assert(prefix[a] == entries[a] && prefix[b] == entries[b]);
            }
        }
        lemma_counts_map_update(prefix, i, entry);
        assert(updated.drop_last() =~= prefix.update(i, entry));
        assert(updated.last() == entries.last());
        assert(entries[i].0@ != entries[entries.len() - 1].0@);
        assert(counts_map(updated) =~= counts_map(entries).insert(entry.0@, entry.1));
    }
}

/// Restart counters of in-process workers, by worker name, under one policy.
pub struct ThreadRestartManager {
    restart_counts: Vec<(String, u32)>,
    policy: ThreadRestartPolicy,
}

impl ThreadRestartManager {
    /// Each name has at most one counter, and none exceeds the budget.
    pub closed spec fn wf(self) -> bool {
        &&& names_unique(self.restart_counts@)
        &&& forall|name: Seq<char>| #[trigger]
            self.counts().contains_key(name) ==> self.counts()[name] <= self.policy.max_restarts
    }

    pub closed spec fn counts(self) -> Map<Seq<char>, u32> {
        counts_map(self.restart_counts@)
    }

    pub closed spec fn spec_policy(self) -> ThreadRestartPolicy {
        self.policy
    }

    /// Restarts recorded for `name`; zero when none was.
    pub open spec fn count_of(self, name: Seq<char>) -> nat {
        if self.counts().contains_key(name) {
            self.counts()[name] as nat
        } else {
            0
        }
    }

    pub open spec fn spec_can_restart(self, name: Seq<char>) -> bool {
        self.count_of(name) < self.spec_policy().max_restarts
    }

    /// Every counter stays within the budget of the policy.
    pub proof fn lemma_counts_within_budget(self, name: Seq<char>)
        requires
            self.wf(),
        ensures
            self.count_of(name) <= self.spec_policy().max_restarts,
    {
    }

    pub fn new(policy: ThreadRestartPolicy) -> (r: Self)
        ensures
            r.wf(),
            r.counts() == Map::<Seq<char>, u32>::empty(),
            r.spec_policy() == policy,
    {
        ThreadRestartManager { restart_counts: Vec::new(), policy }
    }

    pub fn policy(&self) -> (r: ThreadRestartPolicy)
        ensures
            r == self.spec_policy(),
    {
        self.policy
    }

    /// Index of the counter for `name`, if there is one.
    fn find(&self, name: &String) -> (r: Option<usize>)
        requires
            self.wf(),
        ensures
            match r {
                Some(i) => i < self.restart_counts@.len() && self.restart_counts@[i as int].0@
                    == name@,
                None => !self.counts().contains_key(name@),
            },
    {
        let mut i: usize = 0;
        while i < self.restart_counts.len()
            invariant
                i <= self.restart_counts@.len(),
                forall|j: int| 0 <= j < i ==> #[trigger] self.restart_counts@[j].0@ != name@,
            decreases self.restart_counts@.len() - i,
        {
            if self.restart_counts[i].0 == *name {
                return Some(i);
            }
            i = i + 1;
        }
        proof {
            lemma_counts_map_absent(self.restart_counts@, name@);
        }
        None
    }

    pub fn get_restart_count(&self, thread_name: &str) -> (r: u32)
        requires
            self.wf(),
        ensures
            r == self.count_of(thread_name@),
    {
        let key = String::from_str(thread_name);
        match self.find(&key) {
            Some(i) => {
                proof {
                    lemma_counts_map_at(self.restart_counts@, i as int);
                }
                self.restart_counts[i].1
            },
            None => 0,
        }
    }

    pub fn can_restart(&self, thread_name: &str) -> (r: bool)
        requires
            self.wf(),
        ensures
            r == self.spec_can_restart(thread_name@),
    {
        self.get_restart_count(thread_name) < self.policy.max_restarts
    }

    /// Counts one more restart of `thread_name` and returns the delay to wait
    /// before it, computed from the number of restarts made before this one.
    pub fn record_restart(&mut self, thread_name: &str) -> (r: u64)
        requires
            old(self).wf(),
            old(self).spec_can_restart(thread_name@),
        ensures
            final(self).wf(),
            final(self).spec_policy() == old(self).spec_policy(),
            final(self).counts() == old(self).counts().insert(
                thread_name@,
                (old(self).count_of(thread_name@) + 1) as u32,
            ),
            r == old(self).spec_policy().spec_delay(old(self).count_of(thread_name@)),
            old(self).spec_policy().wf() ==> r <= old(self).spec_policy().max_restart_delay_ms,
            old(self).spec_policy().wf() && old(self).count_of(thread_name@) > 0 ==> r
                >= old(self).spec_policy().spec_delay(
                (old(self).count_of(thread_name@) - 1) as nat,
            ),
            old(self).spec_policy().restart_delay_ms == 0 ==> r == 0,
    {
        proof {
            let p = self.policy;
            let c = self.count_of(thread_name@);
            let b = p.restart_delay_ms as nat;
            let m = p.backoff_multiplier_milli as nat;
            let x = p.max_restart_delay_ms as nat;
            lemma_backoff_at_most_max(b, m, x, c);
            lemma_backoff_zero_base(m, x, c);
            if p.wf() && c > 0 {
                lemma_backoff_monotone_and_bounded(b, m, x, (c - 1) as nat);
            }
        }
        let key = String::from_str(thread_name);
        let count = self.get_restart_count(thread_name);
        let delay = self.policy.delay_after(count);
        let ghost old_entries = self.restart_counts@;
        match self.find(&key) {
            Some(i) => {
                proof {
                    lemma_counts_map_at(old_entries, i as int);
                    lemma_counts_map_update(old_entries, i as int, (key, (count + 1) as u32));
                }
                self.restart_counts.set(i, (key, count + 1));
            },
            None => {
                self.restart_counts.push((key, count + 1));
                proof {
                    assert(self.restart_counts@.drop_last() =~= old_entries);
                    assert forall|a: int, b: int|
                        0 <= a < b < self.restart_counts@.len() implies #[trigger] self.restart_counts@[a].0@
                        != #[trigger] self.restart_counts@[b].0@ by {
                        if b == old_entries.len() {
                            if old_entries[a].0@ == thread_name@ {
                                lemma_counts_map_at(old_entries, a);
                            }
                        } else {
                            assert(self.restart_counts@[a] == old_entries[a]);
                            assert(self.restart_counts@[b] == old_entries[b]);
                        }
                    }
                }
            },
        }
        delay
    }
}

} // verus!
