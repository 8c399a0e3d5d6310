//! Round-robin shortlists and no-overlap active symbol assignment.

use vstd::prelude::*;
use crate::text::{strings_view, contains_str};
use crate::portfolio::{SymbolStatsV1, SHORTLIST_SIZE, MAX_ACTIVE_SYMBOLS, shortlist_count, spec_shortlist,
    assignment_ok, shortlists_disjoint, nested_view, active_prefix, spec_shortlists, pool_symbols,
    lemma_shortlist_count};

verus! {

/// Copies a vector of strings.
pub fn copy_strings(v: &Vec<String>) -> (r: Vec<String>)
    ensures
        strings_view(r@) == strings_view(v@),
        r@.len() == v@.len(),
{
    let n = v.len();
    let mut out: Vec<String> = Vec::new();
    let mut i: usize = 0;
    while i < n
        invariant
            n == v@.len(),
            i <= n,
            out@ == v@.subrange(0, i as int),
        decreases n - i,
    {
        let x: String = v[i].clone();
        assert(x == v@[i as int]);
        out.push(x);
        proof {
            assert(out@ =~= v@.subrange(0, i + 1));
        }
        i = i + 1;
    }
    proof {
        assert(v@.subrange(0, n as int) =~= v@);
    }
    out
}

/// Total number of entries over all groups.
pub open spec fn total_len(a: Seq<Seq<Seq<char>>>) -> int
    decreases a.len(),
{
    if a.len() == 0 { 0 } else { total_len(a.drop_last()) + a.last().len() }
}

proof fn lemma_total_len_nonneg(a: Seq<Seq<Seq<char>>>)
    ensures
        total_len(a) >= 0,
    decreases a.len(),
{
    if a.len() > 0 {
        lemma_total_len_nonneg(a.drop_last());
    }
}

proof fn lemma_total_len_push(a: Seq<Seq<Seq<char>>>, k: int, x: Seq<char>)
    requires
        0 <= k < a.len(),
    ensures
        total_len(a.update(k, a[k].push(x))) == total_len(a) + 1,
    decreases a.len(),
{
    let b = a.update(k, a[k].push(x));
    if k == a.len() - 1 {
        assert(b.drop_last() =~= a.drop_last());
    } else {
        assert(b.drop_last() =~= a.drop_last().update(k, a[k].push(x)));
        lemma_total_len_push(a.drop_last(), k, x);
    }
}

proof fn lemma_total_len_bound(a: Seq<Seq<Seq<char>>>, m: int)
    requires
        forall|k: int| 0 <= k < a.len() ==> #[trigger] a[k].len() <= m,
        m >= 0,
    ensures
        total_len(a) <= m * a.len(),
    decreases a.len(),
{
    if a.len() > 0 {
        lemma_total_len_bound(a.drop_last(), m);
        assert(m * (a.len() - 1) + m == m * a.len()) by (nonlinear_arith);
    }
}

/// Whether `x` is active in some portfolio.
pub open spec fn flat_contains(a: Seq<Seq<Seq<char>>>, x: Seq<char>) -> bool {
    exists|k: int, i: int| 0 <= k < a.len() && 0 <= i < a[k].len() && #[trigger] a[k][i] == x
}

/// Deals the pool round-robin: portfolio `k` of `n` receives the symbols at pool
/// positions `k, k + n, k + 2n, ...`, at most [`SHORTLIST_SIZE`] of them.
pub fn deal_shortlists(pool: &Vec<SymbolStatsV1>, n: usize) -> (r: Vec<Vec<String>>)
    requires
        n > 0,
    ensures
        r@.len() == n,
        forall|k: int| 0 <= k < n ==> #[trigger] strings_view(r@[k]@) == spec_shortlist(pool@, n as nat, k as nat),
{
    let len = pool.len();
    let mut out: Vec<Vec<String>> = Vec::new();
    let mut k: usize = 0;
    while k < n
        invariant
            len == pool@.len(),
            n > 0,
            k <= n,
            out@.len() == k,
            forall|j: int| 0 <= j < k ==> #[trigger] strings_view(out@[j]@) == spec_shortlist(pool@, n as nat, j as nat),
        decreases n - k,
    {
        let mut list: Vec<String> = Vec::new();
        let mut r: usize = 0;
        let mut idx: usize = k;
        let mut more: bool = k < len;
        while more && r < SHORTLIST_SIZE
            invariant
                len == pool@.len(),
                n > 0,
                k < n,
                r <= SHORTLIST_SIZE,
                more ==> idx == k + r * n,
                more == (k + r * n < len),
                list@.len() == r,
                forall|q: int| 0 <= q < r ==> #[trigger] list@[q]@ == pool@[k + q * n].symbol@ && k + q * n < len,
            decreases SHORTLIST_SIZE - r,
        {
            let s: String = pool[idx].symbol.clone();
            list.push(s);
            proof {
                assert(k + (r + 1) * n == k + r * n + n) by (nonlinear_arith);
            }
            if len - idx <= n {
                more = false;
            } else {
                idx = idx + n;
            }
            r = r + 1;
        }
        proof {
            let c = shortlist_count(len as nat, n as nat, k as nat);
            if c > r {
                crate::portfolio::lemma_shortlist_count(len as nat, n as nat, k as nat, r as nat);
            } else if c < r {
                crate::portfolio::lemma_shortlist_count(len as nat, n as nat, k as nat, c);
                assert(list@[c as int]@ == pool@[k + c * n].symbol@);
            }
            assert(c == r);
            assert(strings_view(list@) =~= spec_shortlist(pool@, n as nat, k as nat));
        }
        out.push(list);
        k = k + 1;
    }
    out
}

/// Dealing is round-robin: pool position `p`, while below
/// `n * SHORTLIST_SIZE`, is the entry `p / n` of the shortlist of portfolio
/// `p % n`; no shortlist holds more than [`SHORTLIST_SIZE`] symbols.
pub proof fn lemma_shortlists_round_robin(pool: Seq<SymbolStatsV1>, n: nat, p: int)
    requires
        n > 0,
        0 <= p < pool.len(),
        p < n * SHORTLIST_SIZE,
    ensures
        spec_shortlists(pool, n).len() == n,
        forall|k: int| 0 <= k < n ==> #[trigger] spec_shortlists(pool, n)[k].len() <= SHORTLIST_SIZE,
        spec_shortlists(pool, n)[p % (n as int)].len() > p / (n as int),
        spec_shortlists(pool, n)[p % (n as int)][p / (n as int)] == pool[p].symbol@,
{
    let ni = n as int;
    let k = p % ni;
    let r = p / ni;
    vstd::arithmetic::div_mod::lemma_fundamental_div_mod(p, ni);
    vstd::arithmetic::div_mod::lemma_mod_bound(p, ni);
    vstd::arithmetic::div_mod::lemma_div_pos_is_pos(p, ni);
    assert(p == k + r * ni) by (nonlinear_arith)
        requires p == ni * r + k;
    assert(r < SHORTLIST_SIZE) by (nonlinear_arith)
        requires p == k + r * ni, 0 <= k, p < ni * SHORTLIST_SIZE, ni > 0;
    lemma_shortlist_count(pool.len(), n, k as nat, r as nat);
}

/// Shortlists dealt from a pool whose symbols are distinct never share a symbol.
pub proof fn lemma_shortlists_disjoint(pool: Seq<SymbolStatsV1>, n: nat)
    requires
        n > 0,
        pool_symbols(pool).no_duplicates(),
    ensures
        shortlists_disjoint(spec_shortlists(pool, n)),
{
    let sl = spec_shortlists(pool, n);
    let ni = n as int;
    assert forall|k1: int, i1: int, k2: int, i2: int|
        0 <= k1 < sl.len() && 0 <= i1 < sl[k1].len() && 0 <= k2 < sl.len() && 0 <= i2 < sl[k2].len()
        && (k1 != k2 || i1 != i2) implies #[trigger] sl[k1][i1] != #[trigger] sl[k2][i2] by {
        let p1 = k1 + i1 * ni;
        let p2 = k2 + i2 * ni;
        assert(sl[k1][i1] == pool[p1].symbol@);
        assert(sl[k2][i2] == pool[p2].symbol@);
        lemma_shortlist_count(pool.len(), n, k1 as nat, i1 as nat);
        lemma_shortlist_count(pool.len(), n, k2 as nat, i2 as nat);
        if i1 < i2 {
            assert(i2 * ni >= (i1 + 1) * ni) by (nonlinear_arith)
                requires i2 >= i1 + 1, ni > 0;
            assert((i1 + 1) * ni == i1 * ni + ni) by (nonlinear_arith);
        } else if i2 < i1 {
            assert(i1 * ni >= (i2 + 1) * ni) by (nonlinear_arith)
                requires i1 >= i2 + 1, ni > 0;
            assert((i2 + 1) * ni == i2 * ni + ni) by (nonlinear_arith);
        }
        assert(p1 != p2);
        assert(pool_symbols(pool)[p1] == pool[p1].symbol@);
        assert(pool_symbols(pool)[p2] == pool[p2].symbol@);
    }
}

/// Number of pool positions the deal reaches: the pool length, at most
/// [`SHORTLIST_SIZE`] per portfolio.
pub open spec fn dealt_count(len: nat, n: nat) -> nat {
    if len < n * SHORTLIST_SIZE { len } else { (n * SHORTLIST_SIZE) as nat }
}

/// Sum of the shortlist sizes of portfolios `0..j`.
pub open spec fn count_sum(len: nat, n: nat, j: nat) -> nat
    decreases j,
{
    if j == 0 { 0 } else { count_sum(len, n, (j - 1) as nat) + shortlist_count(len, n, (j - 1) as nat) }
}

proof fn lemma_position_unique(k: int, r: int, ni: int, len: int, m: int, q: int)
    requires
        0 <= k < ni,
        0 <= m < ni,
        len == m + q * ni,
    ensures
        k + r * ni == len ==> k == m && r == q,
{
    if k + r * ni == len {
        if r < q {
            assert(r * ni + ni <= q * ni) by (nonlinear_arith) requires r < q, ni > 0;
        } else if r > q {
            assert(q * ni + ni <= r * ni) by (nonlinear_arith) requires r > q, ni > 0;
        }
    }
}

proof fn lemma_count_step(len: nat, n: nat, k: nat)
    requires
        n > 0,
        k < n,
    ensures
        shortlist_count(len + 1, n, k) == shortlist_count(len, n, k)
            + if k == len % n && len < n * SHORTLIST_SIZE { 1nat } else { 0nat },
{
    let a = shortlist_count(len, n, k);
    let b = shortlist_count(len + 1, n, k);
    let ni = n as int;
    vstd::arithmetic::div_mod::lemma_fundamental_div_mod(len as int, ni);
    vstd::arithmetic::div_mod::lemma_mod_bound(len as int, ni);
    let q = len as int / ni;
    let m = len as int % ni;
    assert(len == m + q * ni) by (nonlinear_arith)
        requires len == ni * q + m;
    assert(q >= 0) by (nonlinear_arith)
        requires len == m + q * ni, 0 <= m < ni, len >= 0;
    lemma_position_unique(k as int, a as int, ni, len as int, m, q);
    lemma_position_unique(k as int, b as int, ni, len as int, m, q);
    lemma_position_unique(k as int, a - 1, ni, len as int, m, q);
    lemma_position_unique(k as int, b - 1, ni, len as int, m, q);
    lemma_position_unique(k as int, q, ni, len as int, m, q);
    if q < SHORTLIST_SIZE {
        assert(len < n * SHORTLIST_SIZE) by (nonlinear_arith)
            requires len == m + q * ni, 0 <= m < ni, q < SHORTLIST_SIZE, ni == n, ni > 0;
    } else {
        assert(len >= n * SHORTLIST_SIZE) by (nonlinear_arith)
            requires len == m + q * ni, 0 <= m < ni, q >= SHORTLIST_SIZE, ni == n, ni > 0;
    }
    lemma_shortlist_count(len, n, k, q as nat);
    lemma_shortlist_count(len + 1, n, k, q as nat);
    lemma_shortlist_count(len, n, k, (q + 1) as nat);
    lemma_shortlist_count(len + 1, n, k, (q + 1) as nat);
    assert(k + (q + 1) * ni == k + q * ni + ni) by (nonlinear_arith);
    if q > 0 {
        lemma_shortlist_count(len, n, k, (q - 1) as nat);
        lemma_shortlist_count(len + 1, n, k, (q - 1) as nat);
        assert(k + (q - 1) * ni == k + q * ni - ni) by (nonlinear_arith);
    }
    lemma_shortlist_count(len, n, k, a);
    lemma_shortlist_count(len + 1, n, k, a);
    lemma_shortlist_count(len, n, k, b);
    lemma_shortlist_count(len + 1, n, k, b);
    if a > 0 {
        lemma_shortlist_count(len, n, k, (a - 1) as nat);
        lemma_shortlist_count(len + 1, n, k, (a - 1) as nat);
    }
    if b > 0 {
        lemma_shortlist_count(len, n, k, (b - 1) as nat);
        lemma_shortlist_count(len + 1, n, k, (b - 1) as nat);
    }
    lemma_shortlist_count(len + 1, n, k, a + 1);
}

proof fn lemma_count_sum_step(len: nat, n: nat, j: nat)
    requires
        n > 0,
        j <= n,
    ensures
        count_sum(len + 1, n, j) == count_sum(len, n, j)
            + if len % n < j && len < n * SHORTLIST_SIZE { 1nat } else { 0nat },
    decreases j,
{
    if j > 0 {
        lemma_count_sum_step(len, n, (j - 1) as nat);
        lemma_count_step(len, n, (j - 1) as nat);
    }
}

/// The shortlist sizes add up to the number of dealt pool positions.
proof fn lemma_count_sum_total(len: nat, n: nat)
    requires
        n > 0,
    ensures
        count_sum(len, n, n) == dealt_count(len, n),
    decreases len,
{
    if len == 0 {
        assert forall|j: nat| j <= n implies #[trigger] count_sum(0, n, j) == 0 by {
            lemma_count_sum_zero(n, j);
        }
    } else {
        let l = (len - 1) as nat;
        lemma_count_sum_total(l, n);
        lemma_count_sum_step(l, n, n);
        vstd::arithmetic::div_mod::lemma_mod_bound(l as int, n as int);
    }
}

proof fn lemma_count_sum_zero(n: nat, j: nat)
    ensures
        count_sum(0, n, j) == 0,
    decreases j,
{
    if j > 0 {
        lemma_count_sum_zero(n, (j - 1) as nat);
    }
}

proof fn lemma_total_len_counts(pool: Seq<SymbolStatsV1>, n: nat, j: nat)
    requires
        n > 0,
        j <= n,
    ensures
        total_len(spec_shortlists(pool, n).subrange(0, j as int)) == count_sum(pool.len(), n, j),
    decreases j,
{
    if j > 0 {
        let sl = spec_shortlists(pool, n);
        lemma_total_len_counts(pool, n, (j - 1) as nat);
        assert(sl.subrange(0, j as int).drop_last() =~= sl.subrange(0, j - 1));
    }
}

/// The deal of a pool to `n` portfolios: the shortlists together hold
/// exactly the symbols at the first [`dealt_count`] pool positions, their
/// sizes add up to that count, and any two sizes differ by at most one, the
/// earlier portfolio never holding fewer.
pub proof fn lemma_shortlists_cover_pool_prefix(pool: Seq<SymbolStatsV1>, n: nat)
    requires
        n > 0,
    ensures
        total_len(spec_shortlists(pool, n)) == dealt_count(pool.len(), n),
        forall|k1: int, k2: int| 0 <= k1 < k2 < n ==>
            #[trigger] spec_shortlists(pool, n)[k1].len() >= #[trigger] spec_shortlists(pool, n)[k2].len()
            && spec_shortlists(pool, n)[k1].len() <= spec_shortlists(pool, n)[k2].len() + 1,
        forall|x: Seq<char>| flat_contains(spec_shortlists(pool, n), x)
            <==> exists|p: int| 0 <= p < dealt_count(pool.len(), n) && #[trigger] pool[p].symbol@ == x,
{
    let sl = spec_shortlists(pool, n);
    let ni = n as int;
    let len = pool.len();
    lemma_total_len_counts(pool, n, n);
    assert(sl.subrange(0, ni) =~= sl);
    lemma_count_sum_total(len, n);
    assert forall|k1: int, k2: int| 0 <= k1 < k2 < n implies
        #[trigger] sl[k1].len() >= #[trigger] sl[k2].len() && sl[k1].len() <= sl[k2].len() + 1 by {
        let c1 = shortlist_count(len, n, k1 as nat);
        let c2 = shortlist_count(len, n, k2 as nat);
        lemma_shortlist_count(len, n, k2 as nat, c1);
        lemma_shortlist_count(len, n, k1 as nat, c1);
        if c2 > 0 {
            lemma_shortlist_count(len, n, k2 as nat, (c2 - 1) as nat);
            lemma_shortlist_count(len, n, k1 as nat, (c2 - 1) as nat);
            assert(k1 + (c2 - 1) * ni <= k2 + (c2 - 1) * ni);
        }
        if c1 > c2 + 1 {
            lemma_shortlist_count(len, n, k1 as nat, (c2 + 1) as nat);
            lemma_shortlist_count(len, n, k2 as nat, c2);
            assert(k2 + c2 * ni < k1 + (c2 + 1) * ni) by (nonlinear_arith)
                requires k2 < ni + k1, k1 >= 0;
            assert((c2 + 1) * ni == c2 * ni + ni) by (nonlinear_arith);
        }
        if c1 < c2 {
            lemma_shortlist_count(len, n, k2 as nat, c1);
        }
    }
    assert forall|x: Seq<char>| flat_contains(sl, x)
        <==> exists|p: int| 0 <= p < dealt_count(len, n) && #[trigger] pool[p].symbol@ == x by {
        if flat_contains(sl, x) {
            let (k, i) = choose|k: int, i: int| 0 <= k < sl.len() && 0 <= i < sl[k].len() && #[trigger] sl[k][i] == x;
            lemma_shortlist_count(len, n, k as nat, i as nat);
            let p = k + i * ni;
            assert(p < ni * SHORTLIST_SIZE) by (nonlinear_arith)
                requires p == k + i * ni, k < ni, i < SHORTLIST_SIZE, ni > 0;
            assert(pool[p].symbol@ == x);
        }
        if exists|p: int| 0 <= p < dealt_count(len, n) && #[trigger] pool[p].symbol@ == x {
            let p = choose|p: int| 0 <= p < dealt_count(len, n) && #[trigger] pool[p].symbol@ == x;
            lemma_shortlists_round_robin(pool, n, p);
            vstd::arithmetic::div_mod::lemma_mod_bound(p, ni);
            vstd::arithmetic::div_mod::lemma_div_pos_is_pos(p, ni);
            assert(sl[p % ni][p / ni] == x);
        }
    }
}

/// Facts kept while active symbols are assigned.
pub open spec fn active_inv(sl: Seq<Seq<Seq<char>>>, a: Seq<Seq<Seq<char>>>, used: Seq<Seq<char>>) -> bool {
    &&& assignment_ok(sl, a)
    &&& forall|x: Seq<char>| used.contains(x) <==> flat_contains(a, x)
    &&& used.len() == total_len(a)
    &&& shortlists_disjoint(sl) ==> forall|k: int| 0 <= k < a.len() ==>
        #[trigger] a[k].len() <= sl[k].len() && a[k] == sl[k].subrange(0, a[k].len() as int)
}

/// Whether portfolio `k` is done: it is full or every symbol of its shortlist is taken.
pub open spec fn portfolio_done(sl: Seq<Seq<Seq<char>>>, a: Seq<Seq<Seq<char>>>, k: int) -> bool {
    a[k].len() >= MAX_ACTIVE_SYMBOLS || forall|i: int| 0 <= i < sl[k].len() ==> flat_contains(a, #[trigger] sl[k][i])
}

proof fn lemma_next_unused(sl: Seq<Seq<Seq<char>>>, a: Seq<Seq<Seq<char>>>, used: Seq<Seq<char>>, k: int)
    requires
        active_inv(sl, a, used),
        shortlists_disjoint(sl),
        0 <= k < sl.len(),
        a[k].len() < sl[k].len(),
    ensures
        !flat_contains(a, sl[k][a[k].len() as int]),
{
    let j = a[k].len() as int;
    if flat_contains(a, sl[k][j]) {
        let (k2, i) = choose|k2: int, i: int| 0 <= k2 < a.len() && 0 <= i < a[k2].len() && #[trigger] a[k2][i] == sl[k][j];
        assert(a[k2] == sl[k2].subrange(0, a[k2].len() as int));
        assert(a[k2][i] == sl[k2][i]);
        assert(sl[k2][i] != sl[k][j]);
    }
}

proof fn lemma_push_keeps_inv(sl: Seq<Seq<Seq<char>>>, a: Seq<Seq<Seq<char>>>, used: Seq<Seq<char>>, k: int, idx: int)
    requires
        active_inv(sl, a, used),
        0 <= k < sl.len(),
        a[k].len() < MAX_ACTIVE_SYMBOLS,
        0 <= idx < sl[k].len(),
        !flat_contains(a, sl[k][idx]),
        shortlists_disjoint(sl) ==> idx == a[k].len(),
    ensures
        active_inv(sl, a.update(k, a[k].push(sl[k][idx])), used.push(sl[k][idx])),
{
    let x = sl[k][idx];
    let b = a.update(k, a[k].push(x));
    let u = used.push(x);
    lemma_total_len_push(a, k, x);
    assert forall|k2: int, i: int| 0 <= k2 < b.len() && 0 <= i < b[k2].len() implies
        #[trigger] sl[k2].contains(#[trigger] b[k2][i]) by {
        if k2 == k && i == a[k].len() {
            assert(sl[k][idx] == x);
        } else {
            assert(b[k2][i] == a[k2][i]);
        }
    }
    assert forall|k1: int, i1: int, k2: int, i2: int|
        0 <= k1 < b.len() && 0 <= i1 < b[k1].len() && 0 <= k2 < b.len() && 0 <= i2 < b[k2].len()
        && (k1 != k2 || i1 != i2) implies #[trigger] b[k1][i1] != #[trigger] b[k2][i2] by {
        let new1 = k1 == k && i1 == a[k].len();
        let new2 = k2 == k && i2 == a[k].len();
        if new1 && !new2 {
            assert(b[k2][i2] == a[k2][i2]);
        } else if !new1 && new2 {
            assert(b[k1][i1] == a[k1][i1]);
        } else if !new1 && !new2 {
            assert(b[k1][i1] == a[k1][i1]);
            assert(b[k2][i2] == a[k2][i2]);
        }
    }
    assert forall|y: Seq<char>| u.contains(y) <==> flat_contains(b, y) by {
        if u.contains(y) {
            if y == x {
                assert(b[k][a[k].len() as int] == x);
            } else {
                assert(used.contains(y));
                let (k2, i) = choose|k2: int, i: int| 0 <= k2 < a.len() && 0 <= i < a[k2].len() && #[trigger] a[k2][i] == y;
                assert(b[k2][i] == y);
            }
        }
        if flat_contains(b, y) {
            let (k2, i) = choose|k2: int, i: int| 0 <= k2 < b.len() && 0 <= i < b[k2].len() && #[trigger] b[k2][i] == y;
            if k2 == k && i == a[k].len() {
                assert(u[used.len() as int] == y);
            } else {
                assert(a[k2][i] == y);
                assert(flat_contains(a, y));
                assert(used.contains(y));
                let j = choose|j: int| 0 <= j < used.len() && used[j] == y;
                assert(u[j] == y);
            }
        }
    }
    if shortlists_disjoint(sl) {
        assert forall|k2: int| 0 <= k2 < b.len() implies
            #[trigger] b[k2].len() <= sl[k2].len() && b[k2] == sl[k2].subrange(0, b[k2].len() as int) by {
            if k2 == k {
                assert(b[k] =~= sl[k].subrange(0, b[k].len() as int));
            }
        }
    }
}

/// Position of the first symbol of `s`, from position `i` on, that is not
/// active in any portfolio of `a`.
pub open spec fn first_unused_from(s: Seq<Seq<char>>, a: Seq<Seq<Seq<char>>>, i: nat) -> Option<int>
    decreases s.len() - i,
{
    if i >= s.len() {
        None
    } else if !flat_contains(a, s[i as int]) {
        Some(i as int)
    } else {
        first_unused_from(s, a, i + 1)
    }
}

/// Portfolio `k`'s turn: below [`MAX_ACTIVE_SYMBOLS`], it takes the first
/// symbol of its shortlist that no portfolio has taken yet, if any.
pub open spec fn take_turn(sl: Seq<Seq<Seq<char>>>, a: Seq<Seq<Seq<char>>>, k: int) -> Seq<Seq<Seq<char>>> {
    if a[k].len() < MAX_ACTIVE_SYMBOLS {
        match first_unused_from(sl[k], a, 0) {
            Some(i) => a.update(k, a[k].push(sl[k][i])),
            None => a,
        }
    } else {
        a
    }
}

/// The turns of portfolios `0..j` in order, starting from `a`.
pub open spec fn turns_upto(sl: Seq<Seq<Seq<char>>>, a: Seq<Seq<Seq<char>>>, j: nat) -> Seq<Seq<Seq<char>>>
    decreases j,
{
    if j == 0 { a } else { take_turn(sl, turns_upto(sl, a, (j - 1) as nat), j - 1) }
}

/// Rounds of turns over all portfolios until a round changes nothing, at most
/// `fuel` rounds.
pub open spec fn assignment_rounds(sl: Seq<Seq<Seq<char>>>, a: Seq<Seq<Seq<char>>>, fuel: nat) -> Seq<Seq<Seq<char>>>
    decreases fuel,
{
    if fuel == 0 {
        a
    } else {
        let b = turns_upto(sl, a, sl.len());
        if b == a { a } else { assignment_rounds(sl, b, (fuel - 1) as nat) }
    }
}

/// The active symbols the round-robin assignment gives, whatever the
/// shortlists: from empty sets, rounds in which each portfolio in turn takes
/// its first untaken shortlisted symbol, until a round changes nothing. Each
/// round that changes something adds a symbol, so `MAX_ACTIVE_SYMBOLS * n + 1`
/// rounds always reach that point.
pub open spec fn spec_assign_actives(sl: Seq<Seq<Seq<char>>>) -> Seq<Seq<Seq<char>>> {
    assignment_rounds(sl, Seq::new(sl.len(), |k: int| Seq::<Seq<char>>::empty()), (MAX_ACTIVE_SYMBOLS * sl.len() + 1) as nat)
}

proof fn lemma_first_unused_found(s: Seq<Seq<char>>, a: Seq<Seq<Seq<char>>>, i: int, j: nat)
    requires
        0 <= j <= i < s.len(),
        forall|q: int| 0 <= q < i ==> flat_contains(a, #[trigger] s[q]),
        !flat_contains(a, s[i]),
    ensures
        first_unused_from(s, a, j) == Some(i),
    decreases i - j,
{
    if j < i {
        lemma_first_unused_found(s, a, i, j + 1);
    }
}

proof fn lemma_first_unused_none(s: Seq<Seq<char>>, a: Seq<Seq<Seq<char>>>, j: nat)
    requires
        j <= s.len(),
        forall|q: int| 0 <= q < s.len() ==> flat_contains(a, #[trigger] s[q]),
    ensures
        first_unused_from(s, a, j) is None,
    decreases s.len() - j,
{
    if j < s.len() {
        lemma_first_unused_none(s, a, j + 1);
    }
}

/// Assigns active symbols: in rounds over the portfolios, each portfolio with
/// fewer than [`MAX_ACTIVE_SYMBOLS`] takes the first symbol of its shortlist
/// that no portfolio has taken yet, until a round makes no progress.
pub fn assign_active_symbols(shortlists: &Vec<Vec<String>>) -> (actives: Vec<Vec<String>>)
    ensures
        nested_view(actives@) == spec_assign_actives(nested_view(shortlists@)),
        assignment_ok(nested_view(shortlists@), nested_view(actives@)),
        shortlists_disjoint(nested_view(shortlists@)) ==> forall|k: int| 0 <= k < shortlists@.len() ==>
            #[trigger] nested_view(actives@)[k] == active_prefix(nested_view(shortlists@)[k]),
{
    let ghost sl = nested_view(shortlists@);
    let kn = shortlists.len();
    let mut actives: Vec<Vec<String>> = Vec::new();
    let mut k0: usize = 0;
    while k0 < kn
        invariant
            kn == shortlists@.len(),
            k0 <= kn,
            actives@.len() == k0,
            forall|j: int| 0 <= j < k0 ==> #[trigger] actives@[j]@.len() == 0,
        decreases kn - k0,
    {
        actives.push(Vec::new());
        k0 = k0 + 1;
    }
    let mut used: Vec<String> = Vec::new();
    proof {
        let a = nested_view(actives@);
        assert forall|j: int| 0 <= j < a.len() implies #[trigger] a[j] =~= Seq::<Seq<char>>::empty() by {
            assert(actives@[j]@.len() == 0);
        }
        assert(total_len(a) == 0) by {
            let mut m: int = a.len() as int;
            assert forall|j: int| 0 <= j < a.len() implies #[trigger] a[j].len() <= 0 by {}
            lemma_total_len_bound(a, 0);
            lemma_total_len_nonneg(a);
        }
        assert forall|x: Seq<char>| strings_view(used@).contains(x) <==> flat_contains(a, x) by {
            if flat_contains(a, x) {
                let (k2, i) = choose|k2: int, i: int| 0 <= k2 < a.len() && 0 <= i < a[k2].len() && #[trigger] a[k2][i] == x;
            }
        }
        if shortlists_disjoint(sl) {
            assert forall|k: int| 0 <= k < a.len() implies
                #[trigger] a[k].len() <= sl[k].len() && a[k] == sl[k].subrange(0, a[k].len() as int) by {
                assert(a[k] =~= sl[k].subrange(0, 0));
            }
        }
        assert(a =~= Seq::new(sl.len(), |k: int| Seq::<Seq<char>>::empty()));
    }
    let ghost full_fuel: nat = (MAX_ACTIVE_SYMBOLS * kn + 1) as nat;
    let ghost target = spec_assign_actives(sl);
    let ghost mut fuel: nat = full_fuel;
    loop
        invariant
            kn == shortlists@.len(),
            sl == nested_view(shortlists@),
            actives@.len() == kn,
            active_inv(sl, nested_view(actives@), strings_view(used@)),
            full_fuel == MAX_ACTIVE_SYMBOLS * kn + 1,
            target == spec_assign_actives(sl),
            assignment_rounds(sl, nested_view(actives@), fuel) == target,
            fuel + used@.len() >= full_fuel,
        ensures
            actives@.len() == kn,
            active_inv(sl, nested_view(actives@), strings_view(used@)),
            forall|k: int| 0 <= k < kn ==> portfolio_done(sl, nested_view(actives@), k),
            nested_view(actives@) == target,
        decreases MAX_ACTIVE_SYMBOLS * kn - used@.len(),
    {
        let ghost start = nested_view(actives@);
        let ghost start_used = used@.len();
        proof {
            lemma_total_len_bound(start, MAX_ACTIVE_SYMBOLS as int);
        }
        let mut progressed = false;
        let mut k: usize = 0;
        while k < kn
            invariant
                kn == shortlists@.len(),
                sl == nested_view(shortlists@),
                actives@.len() == kn,
                k <= kn,
                active_inv(sl, nested_view(actives@), strings_view(used@)),
                used@.len() >= start_used,
                start_used == total_len(start),
                progressed ==> used@.len() > start_used,
                !progressed ==> nested_view(actives@) == start && used@.len() == start_used,
                !progressed ==> forall|j: int| 0 <= j < k ==> portfolio_done(sl, start, j),
                nested_view(actives@) == turns_upto(sl, start, k as nat),
            decreases kn - k,
        {
            let ghost a = nested_view(actives@);
            let ghost u = strings_view(used@);
            if actives[k].len() < MAX_ACTIVE_SYMBOLS {
                let n = shortlists[k].len();
                let mut idx: usize = 0;
                let mut found = false;
                while idx < n && !found
                    invariant
                        n == sl[k as int].len(),
                        sl == nested_view(shortlists@),
                        k < kn,
                        kn == shortlists@.len(),
                        idx <= n,
                        found ==> idx < n && !u.contains(sl[k as int][idx as int]),
                        forall|j: int| 0 <= j < idx ==> u.contains(#[trigger] sl[k as int][j]),
                        u == strings_view(used@),
                    decreases n - idx + (if found { 0int } else { 1int }),
                {
                    if !contains_str(&used, shortlists[k][idx].as_str()) {
                        proof {
                            assert(shortlists@[k as int]@[idx as int]@ == sl[k as int][idx as int]);
                        }
                        found = true;
                    } else {
                        proof {
                            assert(shortlists@[k as int]@[idx as int]@ == sl[k as int][idx as int]);
                        }
                        idx = idx + 1;
                    }
                }
                if found {
                    proof {
                        assert(shortlists@[k as int]@[idx as int]@ == sl[k as int][idx as int]);
                        assert forall|q: int| 0 <= q < idx implies flat_contains(a, #[trigger] sl[k as int][q]) by {
                            assert(u.contains(sl[k as int][q]));
                        }
                        lemma_first_unused_found(sl[k as int], a, idx as int, 0);
                        assert(take_turn(sl, a, k as int) == a.update(k as int, a[k as int].push(sl[k as int][idx as int])));
                        if shortlists_disjoint(sl) {
                            assert(a[k as int].len() <= sl[k as int].len());
                            assert forall|j: int| 0 <= j < a[k as int].len() implies u.contains(#[trigger] sl[k as int][j]) by {
                                assert(a[k as int][j] == sl[k as int][j]);
                            }
                            if idx < a[k as int].len() {
                                assert(u.contains(sl[k as int][idx as int]));
                            }
                            if a[k as int].len() < sl[k as int].len() {
                                lemma_next_unused(sl, a, u, k as int);
                            }
                            assert(idx == a[k as int].len());
                        }
                        lemma_push_keeps_inv(sl, a, u, k as int, idx as int);
                    }
                    let sym: String = shortlists[k][idx].clone();
                    let sym2: String = shortlists[k][idx].clone();
                    let mut nv = copy_strings(&actives[k]);
                    proof {
                        assert(strings_view(nv@) == a[k as int]);
                        assert(sym@ == sl[k as int][idx as int]);
                    }
                    nv.push(sym);
                    proof {
                        assert(strings_view(nv@) =~= a[k as int].push(sl[k as int][idx as int]));
                    }
                    let ghost before_set = actives@;
                    actives.set(k, nv);
                    used.push(sym2);
                    proof {
                        assert forall|j: int| 0 <= j < kn implies #[trigger] nested_view(actives@)[j]
                            == a.update(k as int, a[k as int].push(sl[k as int][idx as int]))[j] by {
                            if j != k {
                                assert(actives@[j] == before_set[j]);
                            }
                        }
                        assert(nested_view(actives@) =~= a.update(k as int, a[k as int].push(sl[k as int][idx as int])));
                        assert(strings_view(used@) =~= u.push(sl[k as int][idx as int]));
                    }
                    progressed = true;
                } else {
                    proof {
                        assert forall|i: int| 0 <= i < sl[k as int].len() implies flat_contains(a, #[trigger] sl[k as int][i]) by {
                            assert(u.contains(sl[k as int][i]));
                        }
                        lemma_first_unused_none(sl[k as int], a, 0);
                        assert(take_turn(sl, a, k as int) == a);
                    }
                }
            } else {
                proof {
                    assert(take_turn(sl, a, k as int) == a);
                }
            }
            proof {
                assert(turns_upto(sl, start, (k + 1) as nat) == take_turn(sl, turns_upto(sl, start, k as nat), k as int));
            }
            k = k + 1;
        }
        proof {
            assert(fuel >= 1) by {
                assert(start_used <= MAX_ACTIVE_SYMBOLS * kn);
            }
            assert(sl.len() == kn);
        }
        if !progressed {
            proof {
                assert(turns_upto(sl, start, sl.len()) == start);
            }
            break;
        }
        proof {
            let a_end = nested_view(actives@);
            lemma_total_len_bound(a_end, MAX_ACTIVE_SYMBOLS as int);
            assert(used@.len() <= MAX_ACTIVE_SYMBOLS * kn);
            assert(used@.len() > start_used);
            assert(a_end != start) by {
                if a_end == start {
                    assert(total_len(a_end) == total_len(start));
                }
            }
            assert(assignment_rounds(sl, start, fuel) == assignment_rounds(sl, a_end, (fuel - 1) as nat));
            fuel = (fuel - 1) as nat;
        }
    }
    proof {
        let a = nested_view(actives@);
        if shortlists_disjoint(sl) {
            assert forall|k: int| 0 <= k < kn implies #[trigger] a[k] == active_prefix(sl[k]) by {
                assert(portfolio_done(sl, a, k));
                if a[k].len() < MAX_ACTIVE_SYMBOLS && a[k].len() < sl[k].len() {
                    lemma_next_unused(sl, a, strings_view(used@), k);
                    assert(flat_contains(a, sl[k][a[k].len() as int]));
                }
            }
        }
    }
    actives
}

} // verus!
