//! The two-portfolio engine: portfolios `A` and `B` each shortlist from their
//! own candidates, and a symbol shortlisted by both is owned by exactly one of
//! them, so that no symbol is active in both.

use vstd::prelude::*;
use crate::guards::{GuardBook, SymbolGuardStateV1, guard_step, guard_or_default, step_guard,
    rows_sorted, rows_map, rows_to_map};
use crate::portfolio::{SymbolStatsV1, PortfolioStateV1, rank_order, rank_compare, rank_candidates,
    rank_sorted, reentry_pool, spec_can_reenter, eligible, SHORTLIST_SIZE, MAX_ACTIVE_SYMBOLS};
use crate::text::{strings_view, Comparison};

verus! {

/// The two portfolios.
#[derive(Clone, Copy, Debug, PartialEq, Eq, Hash, PartialOrd, Ord, Structural)]
pub enum PortfolioId {
    A,
    B,
}

/// Owner and owning statistics of each contested symbol.
pub type Owners = Map<Seq<char>, (PortfolioId, SymbolStatsV1)>;

/// Number of symbols owned by `id`, given the counts of `A` and `B`.
pub open spec fn count_for(ca: int, cb: int, id: PortfolioId) -> int {
    match id {
        PortfolioId::A => ca,
        PortfolioId::B => cb,
    }
}

/// One ownership claim: portfolio `pid` shortlists `stats`. An unowned symbol
/// goes to `pid`. An owned one changes hands when `stats` ranks strictly
/// before the owner's statistics, or ties with them while `pid` owns fewer
/// symbols than the owner (which keeps the two sides balanced).
pub open spec fn own_step(st: (Owners, int, int), pid: PortfolioId, stats: SymbolStatsV1) -> (Owners, int, int) {
    let (owners, ca, cb) = st;
    let key = stats.symbol@;
    if !owners.contains_key(key) {
        (
            owners.insert(key, (pid, stats)),
            if pid == PortfolioId::A { ca + 1 } else { ca },
            if pid == PortfolioId::B { cb + 1 } else { cb },
        )
    } else {
        let cur_owner = owners[key].0;
        let ord = rank_order(stats, owners[key].1);
        let take = ord == -1 || (ord == 0 && count_for(ca, cb, pid) < count_for(ca, cb, cur_owner));
        if !take {
            st
        } else if cur_owner == pid {
            (owners.insert(key, (pid, stats)), ca, cb)
        } else if cur_owner == PortfolioId::A {
            (owners.insert(key, (pid, stats)), if ca > 0 { ca - 1 } else { 0 }, cb + 1)
        } else {
            (owners.insert(key, (pid, stats)), ca + 1, if cb > 0 { cb - 1 } else { 0 })
        }
    }
}

/// Ownership after a sequence of claims, from no owners.
pub open spec fn own_fold(events: Seq<(PortfolioId, SymbolStatsV1)>) -> (Owners, int, int)
    decreases events.len(),
{
    if events.len() == 0 {
        (Map::empty(), 0, 0)
    } else {
        let e = events.last();
        own_step(own_fold(events.drop_last()), e.0, e.1)
    }
}

/// The claims of one portfolio's shortlist, in shortlist order.
pub open spec fn tagged(id: PortfolioId, s: Seq<SymbolStatsV1>) -> Seq<(PortfolioId, SymbolStatsV1)> {
    s.map_values(|x: SymbolStatsV1| (id, x))
}

/// Owners after `A` claims its shortlist and then `B` claims its own.
pub open spec fn ownership(sa: Seq<SymbolStatsV1>, sb: Seq<SymbolStatsV1>) -> Owners {
    own_fold(tagged(PortfolioId::A, sa) + tagged(PortfolioId::B, sb)).0
}

/// The candidate's symbol is owned by `id`.
pub open spec fn owned_by(owners: Owners, id: PortfolioId) -> spec_fn(SymbolStatsV1) -> bool {
    |s: SymbolStatsV1| owners.contains_key(s.symbol@) && owners[s.symbol@].0 == id
}

/// Symbols of `shortlist` owned by `id`, in shortlist order.
pub open spec fn owned_symbols(shortlist: Seq<SymbolStatsV1>, owners: Owners, id: PortfolioId) -> Seq<Seq<char>> {
    shortlist.filter(owned_by(owners, id)).map_values(|s: SymbolStatsV1| s.symbol@)
}

/// At most [`MAX_ACTIVE_SYMBOLS`] first entries.
pub open spec fn cap_active(s: Seq<Seq<char>>) -> Seq<Seq<char>> {
    if s.len() > MAX_ACTIVE_SYMBOLS { s.take(MAX_ACTIVE_SYMBOLS as int) } else { s }
}

/// Active symbols of portfolio `id`: its first owned shortlist symbols.
pub open spec fn active_of(shortlist: Seq<SymbolStatsV1>, owners: Owners, id: PortfolioId) -> Seq<Seq<char>> {
    cap_active(owned_symbols(shortlist, owners, id))
}

/// At most [`SHORTLIST_SIZE`] first entries of a pool.
pub open spec fn shortlist_from(pool: Seq<SymbolStatsV1>) -> Seq<SymbolStatsV1> {
    if pool.len() > SHORTLIST_SIZE { pool.take(SHORTLIST_SIZE as int) } else { pool }
}

/// Symbols of a sequence of candidates.
pub open spec fn symbols_of(s: Seq<SymbolStatsV1>) -> Seq<Seq<char>> {
    s.map_values(|x: SymbolStatsV1| x.symbol@)
}

/// Ownership kept as a list of (symbol, owner, statistics).
pub open spec fn assoc_map(v: Seq<(String, PortfolioId, SymbolStatsV1)>) -> Owners
    decreases v.len(),
{
    if v.len() == 0 {
        Map::empty()
    } else {
        assoc_map(v.drop_last()).insert(v.last().0@, (v.last().1, v.last().2))
    }
}

pub open spec fn assoc_distinct(v: Seq<(String, PortfolioId, SymbolStatsV1)>) -> bool {
    forall|i: int, j: int| 0 <= i < j < v.len() ==> v[i].0@ != v[j].0@
}

proof fn lemma_assoc_get(v: Seq<(String, PortfolioId, SymbolStatsV1)>, i: int)
    requires
        assoc_distinct(v),
        0 <= i < v.len(),
    ensures
        assoc_map(v).contains_key(v[i].0@),
        assoc_map(v)[v[i].0@] == (v[i].1, v[i].2),
    decreases v.len(),
{
    if i < v.len() - 1 {
        lemma_assoc_get(v.drop_last(), i);
    }
}

proof fn lemma_assoc_absent(v: Seq<(String, PortfolioId, SymbolStatsV1)>, k: Seq<char>)
    requires
        forall|i: int| 0 <= i < v.len() ==> v[i].0@ != k,
    ensures
        !assoc_map(v).contains_key(k),
    decreases v.len(),
{
    if v.len() > 0 {
        lemma_assoc_absent(v.drop_last(), k);
    }
}

proof fn lemma_assoc_update(v: Seq<(String, PortfolioId, SymbolStatsV1)>, i: int, x: (String, PortfolioId, SymbolStatsV1))
    requires
        assoc_distinct(v),
        0 <= i < v.len(),
        x.0@ == v[i].0@,
    ensures
        assoc_map(v.update(i, x)) =~= assoc_map(v).insert(x.0@, (x.1, x.2)),
    decreases v.len(),
{
    let u = v.update(i, x);
    if i == v.len() - 1 {
        assert(u.drop_last() =~= v.drop_last());
    } else {
        assert(u.drop_last() =~= v.drop_last().update(i, x));
        lemma_assoc_update(v.drop_last(), i, x);
        assert(v.last().0@ != x.0@);
    }
}

/// Position of `symbol` in the ownership list.
fn find_owner(owners: &Vec<(String, PortfolioId, SymbolStatsV1)>, symbol: &String) -> (r: Option<usize>)
    ensures
        match r {
            Some(j) => j < owners@.len() && owners@[j as int].0@ == symbol@,
            None => forall|i: int| 0 <= i < owners@.len() ==> owners@[i].0@ != symbol@,
        },
{
    let mut j: usize = 0;
    while j < owners.len()
        invariant
            j <= owners@.len(),
            forall|i: int| 0 <= i < j ==> owners@[i].0@ != symbol@,
        decreases owners.len() - j,
    {
        if owners[j].0 == *symbol {
            return Some(j);
        }
        j = j + 1;
    }
    None
}

/// Runs the ownership claims in order.
fn resolve_ownership(events: &Vec<(PortfolioId, SymbolStatsV1)>) -> (owners: Vec<(String, PortfolioId, SymbolStatsV1)>)
    ensures
        assoc_distinct(owners@),
        assoc_map(owners@) == own_fold(events@).0,
{
    let mut owners: Vec<(String, PortfolioId, SymbolStatsV1)> = Vec::new();
    let mut ca: usize = 0;
    let mut cb: usize = 0;
    let mut i: usize = 0;
    while i < events.len()
        invariant
            i <= events@.len(),
            assoc_distinct(owners@),
            own_fold(events@.take(i as int)) == (assoc_map(owners@), ca as int, cb as int),
            ca + cb <= i,
        decreases events.len() - i,
    {
        let pid: PortfolioId = events[i].0;
        let stats: SymbolStatsV1 = events[i].1.clone();
        let ghost before = own_fold(events@.take(i as int));
        proof {
            assert(events@.take(i + 1).drop_last() =~= events@.take(i as int));
            assert(events@.take(i + 1).last() == events@[i as int]);
            assert(own_fold(events@.take(i + 1)) == own_step(before, pid, stats));
        }
        match find_owner(&owners, &stats.symbol) {
            None => {
                proof {
                    lemma_assoc_absent(owners@, stats.symbol@);
                }
                let ghost old_owners = owners@;
                owners.push((stats.symbol.clone(), pid, stats.clone()));
                proof {
                    assert(owners@.drop_last() =~= old_owners);
                }
                match pid {
                    PortfolioId::A => { ca = ca + 1; }
                    PortfolioId::B => { cb = cb + 1; }
                }
            }
            Some(j) => {
                proof {
                    lemma_assoc_get(owners@, j as int);
                }
                let cur_owner: PortfolioId = owners[j].1;
                let verdict = rank_compare(&stats, &owners[j].2);
                let pid_count: usize = match pid { PortfolioId::A => ca, PortfolioId::B => cb };
                let cur_count: usize = match cur_owner { PortfolioId::A => ca, PortfolioId::B => cb };
                let take: bool = match verdict {
                    Comparison::Less => true,
                    Comparison::Equal => pid_count < cur_count,
                    Comparison::Greater => false,
                };
                if take {
                    let entry = (stats.symbol.clone(), pid, stats.clone());
                    proof {
                        lemma_assoc_update(owners@, j as int, entry);
                        assert forall|a: int, b: int| 0 <= a < b < owners@.len()
                            implies owners@.update(j as int, entry)[a].0@ != owners@.update(j as int, entry)[b].0@ by {}
                    }
                    owners.set(j, entry);
                    if cur_owner != pid {
                        match cur_owner {
                            PortfolioId::A => {
                                ca = if ca > 0 { ca - 1 } else { 0 };
                                cb = cb + 1;
                            }
                            PortfolioId::B => {
                                cb = if cb > 0 { cb - 1 } else { 0 };
                                ca = ca + 1;
                            }
                        }
                    }
                }
            }
        }
        i = i + 1;
    }
    proof {
        assert(events@.take(i as int) =~= events@);
    }
    owners
}

/// Symbols of `shortlist` owned by `id`, at most [`MAX_ACTIVE_SYMBOLS`].
fn active_symbols_for(
    shortlist: &Vec<SymbolStatsV1>,
    owners: &Vec<(String, PortfolioId, SymbolStatsV1)>,
    id: PortfolioId,
) -> (active: Vec<String>)
    requires
        assoc_distinct(owners@),
    ensures
        strings_view(active@) == active_of(shortlist@, assoc_map(owners@), id),
{
    let ghost m = assoc_map(owners@);
    let mut active: Vec<String> = Vec::new();
    let mut i: usize = 0;
    while i < shortlist.len()
        invariant
            i <= shortlist@.len(),
            assoc_distinct(owners@),
            m == assoc_map(owners@),
            strings_view(active@) == cap_active(owned_symbols(shortlist@.take(i as int), m, id)),
        decreases shortlist.len() - i,
    {
        let s = &shortlist[i];
        let owned: bool = match find_owner(owners, &s.symbol) {
            Some(j) => {
                proof {
                    lemma_assoc_get(owners@, j as int);
                }
                owners[j].1 == id
            }
            None => {
                proof {
                    lemma_assoc_absent(owners@, s.symbol@);
                }
                false
            }
        };
        let ghost prev = owned_symbols(shortlist@.take(i as int), m, id);
        proof {
            let pred = owned_by(m, id);
            let f = |x: SymbolStatsV1| x.symbol@;
            assert(shortlist@.take(i + 1) =~= shortlist@.take(i as int).push(*s));
            shortlist@.take(i as int).lemma_filter_push(*s, pred);
            let base = shortlist@.take(i as int).filter(pred);
            assert(base.push(*s).map_values(f) =~= base.map_values(f).push(s.symbol@));
            assert(owned == pred(*s));
        }
        if owned {
            let ghost old_active = active@;
            if active.len() < MAX_ACTIVE_SYMBOLS {
                active.push(s.symbol.clone());
                proof {
                    assert(strings_view(active@) =~= strings_view(old_active).push(s.symbol@));
                }
            } else {
                proof {
                    assert(prev.push(s.symbol@).take(MAX_ACTIVE_SYMBOLS as int) =~= prev.take(MAX_ACTIVE_SYMBOLS as int));
                }
            }
        }
        i = i + 1;
    }
    proof {
        assert(shortlist@.take(i as int) =~= shortlist@);
    }
    active
}

/// Shortlist and active symbols of both portfolios.
#[derive(Debug, PartialEq, Eq)]
pub struct AbAssignment {
    pub a: PortfolioStateV1,
    pub b: PortfolioStateV1,
}

impl AbAssignment {
    /// The state of portfolio `id`.
    pub fn get(&self, id: PortfolioId) -> (r: &PortfolioStateV1)
        ensures
            r == (match id { PortfolioId::A => &self.a, PortfolioId::B => &self.b }),
    {
        match id {
            PortfolioId::A => &self.a,
            PortfolioId::B => &self.b,
        }
    }
}

/// Per-symbol stop-loss guards of the two-portfolio engine.
#[derive(Debug)]
pub struct PortfolioEngineV1 {
    guards: GuardBook,
}

impl PortfolioEngineV1 {
    #[verifier::type_invariant]
    spec fn inv(self) -> bool {
        self.guards.wf()
    }

    /// Guard state per symbol.
    pub closed spec fn guard_map(&self) -> Map<Seq<char>, SymbolGuardStateV1> {
        self.guards.view_map()
    }

    /// An engine without guards.
    pub fn new() -> (e: Self)
        ensures
            e.guard_map() == Map::<Seq<char>, SymbolGuardStateV1>::empty(),
    {
        PortfolioEngineV1 { guards: GuardBook::new() }
    }

    /// Records a closed trade of `symbol` (see [`guard_step`]); `pnl_positive`
    /// tells whether its PnL was above zero. Returns whether a cooldown was
    /// started.
    pub fn record_closed_trade(&mut self, symbol: &str, pnl_positive: bool, is_stop_loss: bool, ts_ms: i64) -> (triggered: bool)
        ensures
            ({
                let (after, t) = guard_step(guard_or_default(old(self).guard_map(), symbol@), pnl_positive, is_stop_loss, ts_ms);
                &&& final(self).guard_map() == old(self).guard_map().insert(symbol@, after)
                &&& triggered == t
            }),
    {
        proof {
            use_type_invariant(&*self);
        }
        let before = self.guards.get(symbol);
        let (after, triggered) = step_guard(before, pnl_positive, is_stop_loss, ts_ms);
        let mut book = GuardBook::new();
        std::mem::swap(&mut book, &mut self.guards);
        book.set(symbol, after);
        self.guards = book;
        triggered
    }

    /// Whether `symbol` may re-enter: no running cooldown and eligible stats.
    pub fn can_reenter(&self, symbol: &str, stats: &SymbolStatsV1, now_ms: i64) -> (r: bool)
        ensures
            r == spec_can_reenter(self.guard_map(), symbol@, *stats, now_ms),
    {
        proof {
            use_type_invariant(self);
        }
        if self.guards.contains(symbol) {
            let g = self.guards.get(symbol);
            if let Some(until) = g.cooldown_until_ms {
                if now_ms < until {
                    return false;
                }
            }
        }
        eligible(stats)
    }

    /// The guard of `symbol`, or the default guard.
    pub fn guard_state(&self, symbol: &str) -> (g: SymbolGuardStateV1)
        ensures
            g == guard_or_default(self.guard_map(), symbol@),
    {
        proof {
            use_type_invariant(self);
        }
        self.guards.get(symbol)
    }

    /// All guards, ascending by symbol.
    pub fn guard_states(&self) -> (rows: Vec<(String, SymbolGuardStateV1)>)
        ensures
            rows_sorted(rows@),
            rows_map(rows@) == self.guard_map(),
    {
        proof {
            use_type_invariant(self);
        }
        self.guards.rows()
    }

    /// Replaces all guards by `rows`; a later row for a symbol wins.
    pub fn replace_guard_states(&mut self, rows: Vec<(String, SymbolGuardStateV1)>)
        ensures
            final(self).guard_map() == rows_to_map(rows@),
    {
        let mut book = GuardBook::new();
        book.replace(rows);
        self.guards = book;
    }

    /// Spec of one portfolio's shortlist: the first ranked candidates that
    /// may re-enter.
    pub open spec fn shortlist_of(&self, candidates: Seq<SymbolStatsV1>, now_ms: i64) -> Seq<SymbolStatsV1> {
        shortlist_from(reentry_pool(self.guard_map(), rank_sorted(candidates), now_ms))
    }

    /// The first [`SHORTLIST_SIZE`] ranked candidates that may re-enter.
    pub fn build_shortlist(&self, candidates: &[SymbolStatsV1], now_ms: i64) -> (shortlist: Vec<SymbolStatsV1>)
        ensures
            shortlist@ == self.shortlist_of(candidates@, now_ms),
    {
        let ranked = rank_candidates(candidates);
        let n = ranked.len();
        let mut out: Vec<SymbolStatsV1> = Vec::new();
        let mut i: usize = 0;
        while i < n && out.len() < SHORTLIST_SIZE
            invariant
                n == ranked@.len(),
                ranked@ == rank_sorted(candidates@),
                i <= n,
                out@ == shortlist_from(reentry_pool(self.guard_map(), ranked@.take(i as int), now_ms)),
                out@.len() <= SHORTLIST_SIZE,
                out@.len() == SHORTLIST_SIZE ==> reentry_pool(self.guard_map(), ranked@.take(i as int), now_ms).len() == SHORTLIST_SIZE,
            decreases n - i,
        {
            let ghost prev = reentry_pool(self.guard_map(), ranked@.take(i as int), now_ms);
            proof {
                let r = ranked@.take(i + 1);
                assert(r.drop_last() =~= ranked@.take(i as int));
                assert(r.last() == ranked@[i as int]);
            }
            if self.can_reenter(ranked[i].symbol.as_str(), &ranked[i], now_ms) {
                out.push(ranked[i].clone());
            }
            i = i + 1;
        }
        proof {
            lemma_shortlist_prefix_stable(self.guard_map(), ranked@, i as int, now_ms);
        }
        out
    }

    /// Assigns shortlists and active symbols to `A` and `B`. Each portfolio
    /// shortlists from its own candidates (see [`Self::shortlist_of`]); then
    /// `A` claims its shortlisted symbols and `B` its own (see [`own_step`]),
    /// and each portfolio keeps as active its first owned shortlist symbols,
    /// at most [`MAX_ACTIVE_SYMBOLS`].
    pub fn assign_without_overlap(
        &self,
        portfolio_a_candidates: &[SymbolStatsV1],
        portfolio_b_candidates: &[SymbolStatsV1],
        now_ms: i64,
    ) -> (states: AbAssignment)
        ensures
            ({
                let sa = self.shortlist_of(portfolio_a_candidates@, now_ms);
                let sb = self.shortlist_of(portfolio_b_candidates@, now_ms);
                let owners = ownership(sa, sb);
                &&& strings_view(states.a.shortlist@) == symbols_of(sa)
                &&& strings_view(states.b.shortlist@) == symbols_of(sb)
                &&& strings_view(states.a.active_symbols@) == active_of(sa, owners, PortfolioId::A)
                &&& strings_view(states.b.active_symbols@) == active_of(sb, owners, PortfolioId::B)
            }),
    {
        let shortlist_a = self.build_shortlist(portfolio_a_candidates, now_ms);
        let shortlist_b = self.build_shortlist(portfolio_b_candidates, now_ms);
        let mut events: Vec<(PortfolioId, SymbolStatsV1)> = Vec::new();
        let mut i: usize = 0;
        while i < shortlist_a.len()
            invariant
                i <= shortlist_a@.len(),
                events@ == tagged(PortfolioId::A, shortlist_a@.take(i as int)),
            decreases shortlist_a.len() - i,
        {
            events.push((PortfolioId::A, shortlist_a[i].clone()));
            proof {
                assert(tagged(PortfolioId::A, shortlist_a@.take(i + 1)) =~= tagged(PortfolioId::A, shortlist_a@.take(i as int)).push((PortfolioId::A, shortlist_a@[i as int])));
            }
            i = i + 1;
        }
        let mut k: usize = 0;
        while k < shortlist_b.len()
            invariant
                i == shortlist_a@.len(),
                k <= shortlist_b@.len(),
                events@ == tagged(PortfolioId::A, shortlist_a@.take(i as int)) + tagged(PortfolioId::B, shortlist_b@.take(k as int)),
            decreases shortlist_b.len() - k,
        {
            events.push((PortfolioId::B, shortlist_b[k].clone()));
            proof {
                assert(tagged(PortfolioId::B, shortlist_b@.take(k + 1)) =~= tagged(PortfolioId::B, shortlist_b@.take(k as int)).push((PortfolioId::B, shortlist_b@[k as int])));
            }
            k = k + 1;
        }
        proof {
            assert(shortlist_a@.take(i as int) =~= shortlist_a@);
            assert(shortlist_b@.take(k as int) =~= shortlist_b@);
        }
        let owners = resolve_ownership(&events);
        let active_a = active_symbols_for(&shortlist_a, &owners, PortfolioId::A);
        let active_b = active_symbols_for(&shortlist_b, &owners, PortfolioId::B);
        let names_a = symbol_names(&shortlist_a);
        let names_b = symbol_names(&shortlist_b);
        AbAssignment {
            a: PortfolioStateV1 { shortlist: names_a, active_symbols: active_a },
            b: PortfolioStateV1 { shortlist: names_b, active_symbols: active_b },
        }
    }
}

/// Once the pool prefix holds [`SHORTLIST_SIZE`] symbols, longer prefixes
/// give the same shortlist.
proof fn lemma_shortlist_prefix_stable(guards: Map<Seq<char>, SymbolGuardStateV1>, ranked: Seq<SymbolStatsV1>, i: int, now_ms: i64)
    requires
        0 <= i <= ranked.len(),
        i == ranked.len() || reentry_pool(guards, ranked.take(i), now_ms).len() >= SHORTLIST_SIZE,
    ensures
        shortlist_from(reentry_pool(guards, ranked.take(i), now_ms)) == shortlist_from(reentry_pool(guards, ranked, now_ms)),
    decreases ranked.len() - i,
{
    if i == ranked.len() {
        assert(ranked.take(i) =~= ranked);
    } else {
        lemma_pool_prefix(guards, ranked, i, now_ms);
        let p = reentry_pool(guards, ranked.take(i), now_ms);
        let q = reentry_pool(guards, ranked, now_ms);
        assert(shortlist_from(p) =~= shortlist_from(q));
    }
}

/// The pool of a prefix is a prefix of the pool.
proof fn lemma_pool_prefix(guards: Map<Seq<char>, SymbolGuardStateV1>, ranked: Seq<SymbolStatsV1>, i: int, now_ms: i64)
    requires
        0 <= i <= ranked.len(),
    ensures
        reentry_pool(guards, ranked.take(i), now_ms).len() <= reentry_pool(guards, ranked, now_ms).len(),
        forall|j: int| 0 <= j < reentry_pool(guards, ranked.take(i), now_ms).len() ==>
            #[trigger] reentry_pool(guards, ranked.take(i), now_ms)[j] == reentry_pool(guards, ranked, now_ms)[j],
    decreases ranked.len() - i,
{
    if i < ranked.len() {
        lemma_pool_prefix(guards, ranked, i + 1, now_ms);
        let t = ranked.take(i + 1);
        assert(t.drop_last() =~= ranked.take(i));
        let p = reentry_pool(guards, ranked.take(i), now_ms);
        let p1 = reentry_pool(guards, t, now_ms);
        let q = reentry_pool(guards, ranked, now_ms);
        assert forall|j: int| 0 <= j < p.len() implies #[trigger] p[j] == q[j] by {
            assert(p[j] == p1[j]);
        }
    } else {
        assert(ranked.take(i) =~= ranked);
    }
}

/// The symbols of a list of candidates, in order.
fn symbol_names(s: &Vec<SymbolStatsV1>) -> (names: Vec<String>)
    ensures
        strings_view(names@) == symbols_of(s@),
{
    let mut names: Vec<String> = Vec::new();
    let mut i: usize = 0;
    while i < s.len()
        invariant
            i <= s@.len(),
            strings_view(names@) == symbols_of(s@.take(i as int)),
        decreases s.len() - i,
    {
        names.push(s[i].symbol.clone());
        proof {
            assert(symbols_of(s@.take(i + 1)) =~= symbols_of(s@.take(i as int)).push(s@[i as int].symbol@));
            assert(strings_view(names@) =~= symbols_of(s@.take(i + 1)));
        }
        i = i + 1;
    }
    proof {
        assert(s@.take(i as int) =~= s@);
    }
    names
}

/// Claims that never name `x` leave the ownership of `x` as it was.
proof fn lemma_claims_keep_other(e1: Seq<(PortfolioId, SymbolStatsV1)>, e2: Seq<(PortfolioId, SymbolStatsV1)>, x: Seq<char>)
    requires
        forall|i: int| 0 <= i < e2.len() ==> (#[trigger] e2[i]).1.symbol@ != x,
    ensures
        own_fold(e1 + e2).0.contains_key(x) == own_fold(e1).0.contains_key(x),
        own_fold(e1).0.contains_key(x) ==> own_fold(e1 + e2).0[x] == own_fold(e1).0[x],
    decreases e2.len(),
{
    if e2.len() == 0 {
        assert(e1 + e2 =~= e1);
    } else {
        assert((e1 + e2).drop_last() =~= e1 + e2.drop_last());
        assert((e1 + e2).last() == e2.last());
        assert(e2.last() == e2[e2.len() - 1]);
        lemma_claims_keep_other(e1, e2.drop_last(), x);
    }
}

/// When every claim in `e2` is made by `p` and `x` was owned by nobody or by
/// `p`, then afterwards `x` is owned by nobody or by `p`, and by `p` if one of
/// the claims names it.
proof fn lemma_claims_of_one_side(e1: Seq<(PortfolioId, SymbolStatsV1)>, e2: Seq<(PortfolioId, SymbolStatsV1)>, x: Seq<char>, p: PortfolioId)
    requires
        forall|i: int| 0 <= i < e2.len() ==> (#[trigger] e2[i]).0 == p,
        own_fold(e1).0.contains_key(x) ==> own_fold(e1).0[x].0 == p,
    ensures
        own_fold(e1 + e2).0.contains_key(x) ==> own_fold(e1 + e2).0[x].0 == p,
        (exists|i: int| 0 <= i < e2.len() && (#[trigger] e2[i]).1.symbol@ == x) ==> own_fold(e1 + e2).0.contains_key(x),
    decreases e2.len(),
{
    if e2.len() == 0 {
        assert(e1 + e2 =~= e1);
    } else {
        let init = e2.drop_last();
        assert((e1 + e2).drop_last() =~= e1 + init);
        assert((e1 + e2).last() == e2.last());
        assert(e2.last() == e2[e2.len() - 1]);
        lemma_claims_of_one_side(e1, init, x, p);
        if exists|i: int| 0 <= i < e2.len() && (#[trigger] e2[i]).1.symbol@ == x {
            let i = choose|i: int| 0 <= i < e2.len() && (#[trigger] e2[i]).1.symbol@ == x;
            if i < e2.len() - 1 {
                assert(init[i] == e2[i]);
            }
        }
    }
}

/// A symbol shortlisted by one portfolio only is owned by that portfolio.
pub proof fn lemma_unshared_symbol_owner(sa: Seq<SymbolStatsV1>, sb: Seq<SymbolStatsV1>, x: Seq<char>)
    ensures
        symbols_of(sa).contains(x) && !symbols_of(sb).contains(x) ==>
            ownership(sa, sb).contains_key(x) && ownership(sa, sb)[x].0 == PortfolioId::A,
        symbols_of(sb).contains(x) && !symbols_of(sa).contains(x) ==>
            ownership(sa, sb).contains_key(x) && ownership(sa, sb)[x].0 == PortfolioId::B,
{
    let ta = tagged(PortfolioId::A, sa);
    let tb = tagged(PortfolioId::B, sb);
    let none: Seq<(PortfolioId, SymbolStatsV1)> = Seq::empty();
    assert(none + ta =~= ta);
    if symbols_of(sa).contains(x) && !symbols_of(sb).contains(x) {
        let w = choose|w: int| 0 <= w < symbols_of(sa).len() && symbols_of(sa)[w] == x;
        assert(ta[w].1.symbol@ == x);
        lemma_claims_of_one_side(none, ta, x, PortfolioId::A);
        assert forall|i: int| 0 <= i < tb.len() implies (#[trigger] tb[i]).1.symbol@ != x by {
            assert(symbols_of(sb)[i] == tb[i].1.symbol@);
        }
        lemma_claims_keep_other(ta, tb, x);
    }
    if symbols_of(sb).contains(x) && !symbols_of(sa).contains(x) {
        let w = choose|w: int| 0 <= w < symbols_of(sb).len() && symbols_of(sb)[w] == x;
        assert(tb[w].1.symbol@ == x);
        assert forall|i: int| 0 <= i < ta.len() implies (#[trigger] ta[i]).1.symbol@ != x by {
            assert(symbols_of(sa)[i] == ta[i].1.symbol@);
        }
        lemma_claims_keep_other(none, ta, x);
        lemma_claims_of_one_side(ta, tb, x, PortfolioId::B);
    }
}

/// Filtering by a predicate that every element meets keeps the sequence.
proof fn lemma_filter_all(s: Seq<SymbolStatsV1>, pred: spec_fn(SymbolStatsV1) -> bool)
    requires
        forall|i: int| 0 <= i < s.len() ==> pred(#[trigger] s[i]),
    ensures
        s.filter(pred) == s,
    decreases s.len(),
{
    reveal(Seq::filter);
    if s.len() > 0 {
        lemma_filter_all(s.drop_last(), pred);
        assert(s.drop_last().push(s.last()) =~= s);
    }
}

/// When no symbol is shortlisted by both portfolios, each portfolio keeps
/// its first shortlisted symbols active (at most [`MAX_ACTIVE_SYMBOLS`]).
pub proof fn lemma_ab_disjoint_shortlists_keep_prefix(sa: Seq<SymbolStatsV1>, sb: Seq<SymbolStatsV1>)
    requires
        forall|x: Seq<char>| !(symbols_of(sa).contains(x) && symbols_of(sb).contains(x)),
    ensures
        active_of(sa, ownership(sa, sb), PortfolioId::A) == cap_active(symbols_of(sa)),
        active_of(sb, ownership(sa, sb), PortfolioId::B) == cap_active(symbols_of(sb)),
{
    let m = ownership(sa, sb);
    assert forall|i: int| 0 <= i < sa.len() implies #[trigger] owned_by(m, PortfolioId::A)(sa[i]) by {
        assert(symbols_of(sa)[i] == sa[i].symbol@);
        lemma_unshared_symbol_owner(sa, sb, sa[i].symbol@);
    }
    assert forall|i: int| 0 <= i < sb.len() implies #[trigger] owned_by(m, PortfolioId::B)(sb[i]) by {
        assert(symbols_of(sb)[i] == sb[i].symbol@);
        lemma_unshared_symbol_owner(sa, sb, sb[i].symbol@);
    }
    lemma_filter_all(sa, owned_by(m, PortfolioId::A));
    lemma_filter_all(sb, owned_by(m, PortfolioId::B));
}

/// No symbol is active in both portfolios, whatever the shortlists: each
/// active symbol is owned by its own portfolio.
pub proof fn lemma_ab_actives_disjoint(sa: Seq<SymbolStatsV1>, sb: Seq<SymbolStatsV1>, x: Seq<char>)
    ensures
        !(active_of(sa, ownership(sa, sb), PortfolioId::A).contains(x)
            && active_of(sb, ownership(sa, sb), PortfolioId::B).contains(x)),
{
    let m = ownership(sa, sb);
    lemma_active_owned(sa, m, PortfolioId::A, x);
    lemma_active_owned(sb, m, PortfolioId::B, x);
}

/// An active symbol is a symbol of the shortlist owned by the portfolio, and
/// there are at most [`MAX_ACTIVE_SYMBOLS`] of them.
pub proof fn lemma_active_owned(shortlist: Seq<SymbolStatsV1>, owners: Owners, id: PortfolioId, x: Seq<char>)
    ensures
        active_of(shortlist, owners, id).len() <= MAX_ACTIVE_SYMBOLS,
        active_of(shortlist, owners, id).contains(x) ==> owners.contains_key(x) && owners[x].0 == id
            && symbols_of(shortlist).contains(x),
{
    broadcast use vstd::seq_lib::group_filter_ensures;
    let pred = owned_by(owners, id);
    let f = shortlist.filter(pred);
    let o = owned_symbols(shortlist, owners, id);
    let a = active_of(shortlist, owners, id);
    if a.contains(x) {
        let k = choose|k: int| 0 <= k < a.len() && a[k] == x;
        assert(o[k] == x);
        assert(pred(f[k]));
        assert(f[k].symbol@ == x);
        assert(f.contains(f[k]));
        shortlist.lemma_filter_contains_rev(pred, f[k]);
        let w = choose|w: int| 0 <= w < shortlist.len() && shortlist[w] == f[k];
        assert(symbols_of(shortlist)[w] == x);
    }
}

} // verus!
