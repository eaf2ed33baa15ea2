//! The decisions of the load generator: which ConfigMap operation comes
//! next, which URL is requested next, and the counts it reports.

use vstd::prelude::*;
use crate::text::{chars_of, decimal_digits, decimal_text, push_char};

verus! {

/// Counts of requests that succeeded and failed.
pub struct Stats {
    sent: u64,
    errors: u64,
}

impl Stats {
    /// Requests that succeeded.
    pub closed spec fn sent(&self) -> u64 {
        self.sent
    }

    /// Requests that failed.
    pub closed spec fn errors(&self) -> u64 {
        self.errors
    }

    /// No requests yet.
    pub fn new() -> (r: Self)
        ensures
            r.sent() == 0,
            r.errors() == 0,
    {
        Stats { sent: 0, errors: 0 }
    }

    /// Counts a success (wrapping at the top of the range).
    pub fn ok(&mut self)
        ensures
            final(self).sent() == old(self).sent().wrapping_add(1),
            final(self).errors() == old(self).errors(),
    {
        self.sent = self.sent.wrapping_add(1);
    }

    /// Counts a failure (wrapping at the top of the range).
    pub fn err(&mut self)
        ensures
            final(self).errors() == old(self).errors().wrapping_add(1),
            final(self).sent() == old(self).sent(),
    {
        self.errors = self.errors.wrapping_add(1);
    }

    /// The counts: (succeeded, failed).
    pub fn snapshot(&self) -> (r: (u64, u64))
        ensures
            r == (self.sent(), self.errors()),
    {
        (self.sent, self.errors)
    }
}

impl Default for Stats {
    fn default() -> (r: Self)
        ensures
            r.sent() == 0,
            r.errors() == 0,
    {
        Stats::new()
    }
}

/// The kinds of ConfigMap operation.
pub enum OpKind {
    Create,
    Patch,
    Delete,
}

/// How many ConfigMaps the generator keeps at most.
pub const POOL_CAP: usize = 50;

/// The operation for tick `tick` with `pool_len` ConfigMaps alive: create
/// when there are none; otherwise, by `tick % 10`, patch (0–5), create
/// while under the cap or else patch (6–7), or delete (8–9).
pub open spec fn op_for(pool_len: nat, tick: u64) -> OpKind {
    if pool_len == 0 {
        OpKind::Create
    } else if tick % 10 <= 5 {
        OpKind::Patch
    } else if tick % 10 <= 7 {
        if pool_len < 50 {
            OpKind::Create
        } else {
            OpKind::Patch
        }
    } else {
        OpKind::Delete
    }
}

/// An operation to perform, with the ConfigMap it names; a patch carries
/// the value it writes under `tick`.
pub enum ConfigMapAction {
    Create(String),
    Patch(String, String),
    Delete(String),
}

/// The mathematical content of a `ConfigMapAction`.
pub enum ConfigMapActionView {
    Create(Seq<char>),
    Patch(Seq<char>, Seq<char>),
    Delete(Seq<char>),
}

impl View for ConfigMapAction {
    type V = ConfigMapActionView;

    open spec fn view(&self) -> ConfigMapActionView {
        match self {
            ConfigMapAction::Create(n) => ConfigMapActionView::Create(n@),
            ConfigMapAction::Patch(n, v) => ConfigMapActionView::Patch(n@, v@),
            ConfigMapAction::Delete(n) => ConfigMapActionView::Delete(n@),
        }
    }
}

/// The name given to the ConfigMap created at tick `tick`.
pub open spec fn created_name(tick: u64) -> Seq<char> {
    "load-gen-"@ + decimal_digits(tick as nat)
}

/// The ConfigMaps the generator created and has not deleted, oldest first.
pub struct ConfigMapPool {
    pool: Vec<String>,
}

impl ConfigMapPool {
    /// The names, oldest first.
    pub closed spec fn view(&self) -> Seq<Seq<char>> {
        self.pool@.map_values(|s: String| s@)
    }

    /// An empty pool.
    pub fn new() -> (r: Self)
        ensures
            r.view() == Seq::<Seq<char>>::empty(),
    {
        let r = ConfigMapPool { pool: Vec::new() };
        assert(r.view() =~= Seq::<Seq<char>>::empty());
        r
    }

    /// The operation for tick `tick`. A delete takes the oldest ConfigMap
    /// out of the pool; a patch names the one at `tick % len`.
    pub fn next_action(&mut self, tick: u64) -> (r: ConfigMapAction)
        ensures
            r@ == action_for(old(self).view(), tick),
            final(self).view() == pool_chosen(old(self).view(), tick),
            match op_for(old(self).view().len(), tick) {
                OpKind::Create => r matches ConfigMapAction::Create(n) && n@ == created_name(tick)
                    && final(self).view() == old(self).view(),
                OpKind::Patch => r matches ConfigMapAction::Patch(n, v) && n@ == old(self).view()[(
                tick % (old(self).view().len() as u64)) as int] && v@ == decimal_digits(tick as nat)
                    && final(self).view() == old(self).view(),
                OpKind::Delete => r matches ConfigMapAction::Delete(n) && n@ == old(self).view()[0]
                    && final(self).view() == old(self).view().drop_first(),
            },
    {
        let len = self.pool.len();
        let kind = if len == 0 {
            OpKind::Create
        } else if tick % 10 <= 5 {
            OpKind::Patch
        } else if tick % 10 <= 7 {
            if len < POOL_CAP {
                OpKind::Create
            } else {
                OpKind::Patch
            }
        } else {
            OpKind::Delete
        };
        match kind {
            OpKind::Create => {
                let mut name = "load-gen-".to_string();
                name.append(decimal_text(tick).as_str());
                ConfigMapAction::Create(name)
            },
            OpKind::Patch => {
                let idx = (tick % (len as u64)) as usize;
                let name = self.pool[idx].clone();
                ConfigMapAction::Patch(name, decimal_text(tick))
            },
            OpKind::Delete => {
                let ghost before = self.view();
                let name = self.pool.remove(0);
                assert(self.view() =~= before.drop_first());
                ConfigMapAction::Delete(name)
            },
        }
    }

    /// Records a ConfigMap that was created.
    pub fn created(&mut self, name: String)
        ensures
            final(self).view() == old(self).view().push(name@),
    {
        let ghost before = self.view();
        self.pool.push(name);
        assert(self.view() =~= before.push(name@));
    }

    /// Carries the outcome of a tick's action into the pool and the counts:
    /// a ConfigMap whose creation succeeded joins the pool, and exactly one
    /// of the two counts goes up.
    pub fn settle(&mut self, action: &ConfigMapAction, succeeded: bool, stats: &mut Stats)
        ensures
            final(self).view() == settled(old(self).view(), action@, succeeded),
            succeeded ==> final(stats).sent() == old(stats).sent().wrapping_add(1),
            succeeded ==> final(stats).errors() == old(stats).errors(),
            !succeeded ==> final(stats).errors() == old(stats).errors().wrapping_add(1),
            !succeeded ==> final(stats).sent() == old(stats).sent(),
    {
        if succeeded {
            if let ConfigMapAction::Create(name) = action {
                self.created(name.clone());
            }
            stats.ok();
        } else {
            stats.err();
        }
    }

    /// The names, oldest first, for the clean-up at the end.
    pub fn names(&self) -> (r: &Vec<String>)
        ensures
            r@.map_values(|s: String| s@) == self.view(),
    {
        &self.pool
    }
}

/// The action `next_action` chooses for tick `tick` on the given pool.
pub open spec fn action_for(pool: Seq<Seq<char>>, tick: u64) -> ConfigMapActionView {
    match op_for(pool.len(), tick) {
        OpKind::Create => ConfigMapActionView::Create(created_name(tick)),
        OpKind::Patch => ConfigMapActionView::Patch(
            pool[(tick % (pool.len() as u64)) as int],
            decimal_digits(tick as nat),
        ),
        OpKind::Delete => ConfigMapActionView::Delete(pool[0]),
    }
}

/// The pool once `next_action` has chosen the action for tick `tick`: a
/// delete takes the oldest ConfigMap out.
pub open spec fn pool_chosen(pool: Seq<Seq<char>>, tick: u64) -> Seq<Seq<char>> {
    match op_for(pool.len(), tick) {
        OpKind::Delete => pool.drop_first(),
        _ => pool,
    }
}

/// The pool after an action has been carried out: a ConfigMap whose
/// creation succeeded joins it; nothing else changes it (a delete took its
/// ConfigMap out already when the action was chosen).
pub open spec fn settled(pool: Seq<Seq<char>>, action: ConfigMapActionView, succeeded: bool) -> Seq<Seq<char>> {
    match action {
        ConfigMapActionView::Create(n) => if succeeded {
            pool.push(n)
        } else {
            pool
        },
        _ => pool,
    }
}

/// One tick of the generator: the pool after the tick's action was chosen
/// and carried out with the given outcome.
pub open spec fn pool_after(pool: Seq<Seq<char>>, tick: u64, succeeded: bool) -> Seq<Seq<char>> {
    match op_for(pool.len(), tick) {
        OpKind::Create => if succeeded {
            pool.push(created_name(tick))
        } else {
            pool
        },
        OpKind::Patch => pool,
        OpKind::Delete => pool.drop_first(),
    }
}

/// The pool after a run of ticks, each given with its outcome.
pub open spec fn pool_run(pool: Seq<Seq<char>>, steps: Seq<(u64, bool)>) -> Seq<Seq<char>>
    decreases steps.len(),
{
    if steps.len() == 0 {
        pool
    } else {
        let last = steps.last();
        pool_after(pool_run(pool, steps.drop_last()), last.0, last.1)
    }
}

/// Choosing a tick's action with `next_action` and carrying it out with
/// `settle` leaves the pool as `pool_after` says.
pub proof fn lemma_tick_is_pool_after(pool: Seq<Seq<char>>, tick: u64, succeeded: bool)
    ensures
        settled(pool_chosen(pool, tick), action_for(pool, tick), succeeded) == pool_after(
            pool,
            tick,
            succeeded,
        ),
{
}

/// The pool never holds more than `POOL_CAP` ConfigMaps: from a pool within
/// the cap, every run of ticks, whatever the outcomes, stays within it at
/// every step.
pub proof fn lemma_pool_capped(pool: Seq<Seq<char>>, steps: Seq<(u64, bool)>)
    requires
        pool.len() <= POOL_CAP,
    ensures
        forall|i: int| 0 <= i <= steps.len() ==> #[trigger] pool_run(pool, steps.take(i)).len() <= POOL_CAP,
    decreases steps.len(),
{
    if steps.len() > 0 {
        let init = steps.drop_last();
        lemma_pool_capped(pool, init);
        assert forall|i: int| 0 <= i <= steps.len() implies #[trigger] pool_run(pool, steps.take(i)).len() <= POOL_CAP by {
            if i < steps.len() {
                assert(steps.take(i) =~= init.take(i));
            } else {
                assert(steps.take(i) =~= steps);
                assert(init.take(init.len() as int) =~= init);
                let p = pool_run(pool, init);
                assert(p.len() <= POOL_CAP);
            }
        }
    }
}

/// The request paths, taken in turn.
pub open spec fn request_path(i: nat) -> Seq<char> {
    if i == 0 {
        "/"@
    } else if i == 1 {
        "/api/v1/users"@
    } else if i == 2 {
        "/api/v1/orders"@
    } else if i == 3 {
        "/api/v1/status"@
    } else {
        "/metrics"@
    }
}

/// `s` without the trailing characters `c`.
pub open spec fn trim_end(s: Seq<char>, c: char) -> Seq<char>
    decreases s.len(),
{
    if s.len() > 0 && s.last() == c {
        trim_end(s.drop_last(), c)
    } else {
        s
    }
}

/// The URL of request `tick`: the target without trailing slashes, then
/// the next of the five paths.
pub fn request_url(target: &str, tick: u64) -> (r: String)
    ensures
        r@ == trim_end(target@, '/') + request_path((tick % 5) as nat),
{
    let v = chars_of(target);
    let mut end: usize = v.len();
    assert(target@.take(end as int) =~= target@);
    while end > 0 && v[end - 1] == '/'
        invariant
            v@ == target@,
            end <= v.len(),
            trim_end(target@, '/') == trim_end(target@.take(end as int), '/'),
        decreases end,
    {
        proof {
            assert(target@.take(end as int).drop_last() =~= target@.take(end - 1));
        }
        end = end - 1;
    }
    let mut url = String::new();
    let mut i: usize = 0;
    while i < end
        invariant
            v@ == target@,
            end <= v.len(),
            i <= end,
            url@ == target@.take(i as int),
        decreases end - i,
    {
        push_char(&mut url, v[i]);
        assert(url@ =~= target@.take(i + 1));
        i = i + 1;
    }
    proof {
        assert(trim_end(target@.take(end as int), '/') == target@.take(end as int));
    }
    let k = tick % 5;
    let path = if k == 0 {
        "/"
    } else if k == 1 {
        "/api/v1/users"
    } else if k == 2 {
        "/api/v1/orders"
    } else if k == 3 {
        "/api/v1/status"
    } else {
        "/metrics"
    };
    url.append(path);
    url
}

} // verus!
