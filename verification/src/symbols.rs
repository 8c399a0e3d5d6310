//! Symbols: Gate contract normalisation, compact strategy symbol ids in
//! first-seen order, and the index between symbols and their ids.

use vstd::prelude::*;
use vstd::hash_map::StringHashMap;
use vstd::utf8::{encode_utf8, decode_utf8, valid_utf8};
use vstd::string::StringSliceAdditionalSpecFns;
use bytes::Bytes;
use crate::text::{strings_view, lemma_encode_utf8_injective};

verus! {

broadcast use {vstd::hash_map::group_hash_map_axioms, vstd::utf8::encode_utf8_decode_utf8,
    vstd::utf8::decode_utf8_encode_utf8, vstd::utf8::encode_utf8_valid_utf8};

/// Compact id of a strategy symbol.
pub type SymbolId = u16;

/// Number of distinct ids a [`SymbolId`] can take.
pub const MAX_STRATEGY_SYMBOLS: usize = 65536;

/// Gate contract suffix of USDT-margined contracts.
pub open spec fn suffix_usdt() -> Seq<u8> {
    seq![95u8, 85u8, 83u8, 68u8, 84u8]
}

/// Gate contract suffix of USD-margined contracts.
pub open spec fn suffix_usd() -> Seq<u8> {
    seq![95u8, 85u8, 83u8, 68u8]
}

/// The bytes `USDT`.
pub open spec fn usdt_bytes() -> Seq<u8> {
    seq![85u8, 83u8, 68u8, 84u8]
}

/// Whether `s` ends with `t`.
pub open spec fn ends_with(s: Seq<u8>, t: Seq<u8>) -> bool {
    s.len() >= t.len() && s.subrange(s.len() - t.len(), s.len() as int) == t
}

/// Canonical symbol of a Gate contract: `BASE_USDT` and `BASE_USD` become
/// `BASEUSDT`; anything else stays as it is.
pub open spec fn gate_contract_symbol(c: Seq<u8>) -> Seq<u8> {
    if ends_with(c, suffix_usdt()) {
        c.subrange(0, c.len() - 5) + usdt_bytes()
    } else if ends_with(c, suffix_usd()) {
        c.subrange(0, c.len() - 4) + usdt_bytes()
    } else {
        c
    }
}

fn ends_with_bytes(s: &[u8], t: &[u8]) -> (r: bool)
    ensures
        r == ends_with(s@, t@),
{
    if s.len() < t.len() {
        return false;
    }
    let off = s.len() - t.len();
    let mut i: usize = 0;
    while i < t.len()
        invariant
            s@.len() >= t@.len(),
            s@.len() <= usize::MAX,
            off == s@.len() - t@.len(),
            i <= t@.len(),
            forall|k: int| 0 <= k < i ==> s@[off + k] == t@[k],
        decreases t@.len() - i,
    {
        if s[off + i] != t[i] {
            proof {
                assert(s@.subrange(off as int, s@.len() as int)[i as int] != t@[i as int]);
            }
            return false;
        }
        i = i + 1;
    }
    proof {
        assert(s@.subrange(off as int, s@.len() as int) =~= t@);
    }
    true
}

fn copy_prefix_then_usdt(c: &[u8], n: usize) -> (r: Vec<u8>)
    requires
        n <= c@.len(),
    ensures
        r@ == c@.subrange(0, n as int) + usdt_bytes(),
{
    let mut out: Vec<u8> = Vec::new();
    let mut i: usize = 0;
    while i < n
        invariant
            n <= c@.len(),
            i <= n,
            out@ == c@.subrange(0, i as int),
        decreases n - i,
    {
        out.push(c[i]);
        proof {
            assert(out@ =~= c@.subrange(0, i + 1));
        }
        i = i + 1;
    }
    out.push(85u8);
    out.push(83u8);
    out.push(68u8);
    out.push(84u8);
    proof {
        assert(out@ =~= c@.subrange(0, n as int) + usdt_bytes());
    }
    out
}

/// Canonical symbol of a Gate contract (see [`gate_contract_symbol`]).
pub fn normalize_gate_contract(contract: &[u8]) -> (r: Vec<u8>)
    ensures
        r@ == gate_contract_symbol(contract@),
{
    let usdt: [u8; 5] = [95u8, 85u8, 83u8, 68u8, 84u8];
    let usd: [u8; 4] = [95u8, 85u8, 83u8, 68u8];
    proof {
        assert(usdt@ =~= suffix_usdt());
        assert(usd@ =~= suffix_usd());
    }
    if ends_with_bytes(contract, usdt.as_slice()) {
        return copy_prefix_then_usdt(contract, contract.len() - 5);
    }
    if ends_with_bytes(contract, usd.as_slice()) {
        return copy_prefix_then_usdt(contract, contract.len() - 4);
    }
    let mut out: Vec<u8> = Vec::new();
    let mut i: usize = 0;
    while i < contract.len()
        invariant
            i <= contract@.len(),
            out@ == contract@.subrange(0, i as int),
        decreases contract@.len() - i,
    {
        out.push(contract[i]);
        proof {
            assert(out@ =~= contract@.subrange(0, i + 1));
        }
        i = i + 1;
    }
    proof {
        assert(out@ =~= contract@);
    }
    out
}

#[verifier::external_type_specification]
#[verifier::external_body]
pub struct ExBytes(bytes::Bytes);

/// The bytes a `bytes::Bytes` buffer holds.
pub uninterp spec fn bytes_content(b: Bytes) -> Seq<u8>;

/// Calls `bytes::Bytes::copy_from_slice`, which copies `data` into a new
/// buffer; the buffer holds exactly `data`.
#[verifier::external_body]
pub(crate) fn bytes_copy_from_slice(data: &[u8]) -> (r: Bytes)
    ensures
        bytes_content(r) == data@,
{
    Bytes::copy_from_slice(data)
}

/// Calls `std::str::from_utf8`: the string the bytes encode when they are
/// valid UTF-8, else nothing.
#[verifier::external_body]
fn str_from_utf8(b: &[u8]) -> (r: Option<&str>)
    ensures
        match r {
            Some(s) => valid_utf8(b@) && s@ == decode_utf8(b@),
            None => !valid_utf8(b@),
        },
{
    std::str::from_utf8(b).ok()
}

/// Calls `<bytes::Bytes as AsRef<[u8]>>::as_ref`, which views the buffer's
/// bytes as a slice.
#[verifier::external_body]
pub(crate) fn bytes_as_slice(b: &Bytes) -> (r: &[u8])
    ensures
        r@ == bytes_content(*b),
{
    b.as_ref()
}

/// Id of the symbol whose UTF-8 encoding is `bytes` among indexed `symbols`:
/// its position, if there is one.
pub open spec fn lookup_in(symbols: Seq<Seq<char>>, bytes: Seq<u8>) -> Option<SymbolId> {
    if exists|k: int| 0 <= k < symbols.len() && encode_utf8(symbols[k]) == bytes {
        Some((choose|k: int| 0 <= k < symbols.len() && encode_utf8(symbols[k]) == bytes) as SymbolId)
    } else {
        None
    }
}

/// Distinct symbols in first-seen order.
pub open spec fn first_seen(s: Seq<Seq<char>>) -> Seq<Seq<char>>
    decreases s.len(),
{
    if s.len() == 0 {
        Seq::empty()
    } else {
        let acc = first_seen(s.drop_last());
        if acc.contains(s.last()) { acc } else { acc.push(s.last()) }
    }
}

/// The symbol universe does not fit the id space.
#[derive(Debug, Clone, Copy, PartialEq, Eq)]
pub struct StrategySymbolIdCapacityError {
    pub unique_symbols: usize,
    pub max_symbols: usize,
}

/// Assigns ids `0, 1, 2, ...` to the distinct symbols in first-seen order,
/// with each symbol's UTF-8 bytes; fails when there are more distinct
/// symbols than ids.
pub fn build_strategy_symbol_id_pairs(strategy_symbols: &[String])
    -> (r: Result<Vec<(Bytes, SymbolId)>, StrategySymbolIdCapacityError>)
    ensures
        ({
            let d = first_seen(strategy_symbols@.map_values(|s: String| s@));
            &&& d.len() > MAX_STRATEGY_SYMBOLS ==> r == Err::<Vec<(Bytes, SymbolId)>, StrategySymbolIdCapacityError>(
                StrategySymbolIdCapacityError { unique_symbols: (MAX_STRATEGY_SYMBOLS + 1) as usize, max_symbols: MAX_STRATEGY_SYMBOLS })
            &&& d.len() <= MAX_STRATEGY_SYMBOLS ==> r is Ok && r->Ok_0@.len() == d.len()
                && forall|k: int| 0 <= k < d.len() ==> (#[trigger] r->Ok_0@[k]).1 == k
                    && bytes_content(r->Ok_0@[k].0) == encode_utf8(d[k])
        }),
{
    let ghost all = strategy_symbols@.map_values(|s: String| s@);
    let mut pairs: Vec<(Bytes, SymbolId)> = Vec::new();
    let mut seen: StringHashMap<SymbolId> = StringHashMap::new();
    let mut next: usize = 0;
    let n = strategy_symbols.len();
    let mut i: usize = 0;
    while i < n
        invariant
            n == strategy_symbols@.len(),
            all == strategy_symbols@.map_values(|s: String| s@),
            i <= n,
            next == first_seen(all.subrange(0, i as int)).len(),
            next <= MAX_STRATEGY_SYMBOLS,
            pairs@.len() == next,
            forall|x: Seq<char>| seen@.contains_key(x) <==> first_seen(all.subrange(0, i as int)).contains(x),
            forall|k: int| 0 <= k < next ==> (#[trigger] pairs@[k]).1 == k
                && bytes_content(pairs@[k].0) == encode_utf8(first_seen(all.subrange(0, i as int))[k]),
        decreases n - i,
    {
        let symbol: &String = &strategy_symbols[i];
        let ghost prev = first_seen(all.subrange(0, i as int));
        proof {
            let r = all.subrange(0, i + 1);
            assert(r.drop_last() =~= all.subrange(0, i as int));
            assert(r.last() == symbol@);
        }
        if seen.contains_key(symbol.as_str()) {
            i = i + 1;
            continue;
        }
        if next >= MAX_STRATEGY_SYMBOLS {
            proof {
                lemma_first_seen_prefix_len(all, i as int + 1);
                assert(first_seen(all.subrange(0, i + 1)).len() == next + 1);
            }
            return Err(StrategySymbolIdCapacityError { unique_symbols: next + 1, max_symbols: MAX_STRATEGY_SYMBOLS });
        }
        let id: SymbolId = next as u16;
        seen.insert(symbol.clone(), id);
        let key = bytes_copy_from_slice(symbol.as_str().as_bytes());
        pairs.push((key, id));
        proof {
            broadcast use vstd::seq_lib::lemma_seq_contains_after_push;
            let cur = first_seen(all.subrange(0, i + 1));
            assert(cur == prev.push(symbol@));
            assert forall|k: int| 0 <= k < next + 1 implies (#[trigger] pairs@[k]).1 == k
                && bytes_content(pairs@[k].0) == encode_utf8(cur[k]) by {
                if k < next {
                    assert(cur[k] == prev[k]);
                }
            }
        }
        next = next + 1;
        i = i + 1;
    }
    proof {
        assert(all.subrange(0, n as int) =~= all);
    }
    Ok(pairs)
}

proof fn lemma_first_seen_prefix_len(s: Seq<Seq<char>>, i: int)
    requires
        0 <= i <= s.len(),
    ensures
        first_seen(s.subrange(0, i)).len() <= first_seen(s).len(),
        first_seen(s).len() <= s.len(),
        first_seen(s.subrange(0, i)) == first_seen(s).subrange(0, first_seen(s.subrange(0, i)).len() as int),
    decreases s.len() - i,
{
    if i == s.len() {
        assert(s.subrange(0, i) =~= s);
        lemma_first_seen_len(s);
        assert(first_seen(s).subrange(0, first_seen(s).len() as int) =~= first_seen(s));
    } else {
        lemma_first_seen_prefix_len(s, i + 1);
        let a = s.subrange(0, i + 1);
        assert(a.drop_last() =~= s.subrange(0, i));
        let p = first_seen(s.subrange(0, i));
        let q = first_seen(a);
        assert(q == p || q == p.push(a.last()));
        assert(p =~= q.subrange(0, p.len() as int));
        assert(first_seen(s).subrange(0, p.len() as int) =~= first_seen(s).subrange(0, q.len() as int).subrange(0, p.len() as int));
    }
}

proof fn lemma_first_seen_len(s: Seq<Seq<char>>)
    ensures
        first_seen(s).len() <= s.len(),
        first_seen(s).no_duplicates(),
        forall|x: Seq<char>| first_seen(s).contains(x) <==> s.contains(x),
    decreases s.len(),
{
    broadcast use vstd::seq_lib::lemma_seq_contains_after_push;
    if s.len() > 0 {
        lemma_first_seen_len(s.drop_last());
        assert(s =~= s.drop_last().push(s.last()));
    }
}

/// Ids are given in first-seen order to distinct symbols: the symbols of the
/// pairs are exactly the distinct requested symbols, each once.
pub proof fn lemma_first_seen_distinct(s: Seq<Seq<char>>)
    ensures
        first_seen(s).no_duplicates(),
        forall|x: Seq<char>| first_seen(s).contains(x) <==> s.contains(x),
{
    lemma_first_seen_len(s);
}

/// Index from strategy symbols to compact ids and back.
pub struct StrategySymbolIndex {
    symbol_to_id: StringHashMap<SymbolId>,
    id_to_symbol: Vec<String>,
}

/// Most symbols the index holds.
pub const MAX_INDEXED_SYMBOLS: usize = 65535;

impl StrategySymbolIndex {
    #[verifier::type_invariant]
    spec fn inv(self) -> bool {
        &&& self.id_to_symbol@.len() <= MAX_INDEXED_SYMBOLS
        &&& strings_view(self.id_to_symbol@).no_duplicates()
        &&& forall|x: Seq<char>| #[trigger] self.symbol_to_id@.contains_key(x) <==> strings_view(self.id_to_symbol@).contains(x)
        &&& forall|k: int| 0 <= k < self.id_to_symbol@.len() ==>
            #[trigger] self.symbol_to_id@[self.id_to_symbol@[k]@] == k
    }

    /// The indexed symbols; a symbol's id is its position.
    pub closed spec fn symbols(&self) -> Seq<Seq<char>> {
        strings_view(self.id_to_symbol@)
    }

    /// Indexes the distinct symbols in first-seen order, at most
    /// [`MAX_INDEXED_SYMBOLS`] of them.
    pub fn new(strategy_symbols: &[String]) -> (r: Self)
        ensures
            ({
                let d = first_seen(strategy_symbols@.map_values(|s: String| s@));
                r.symbols() == d.subrange(0, if d.len() < MAX_INDEXED_SYMBOLS { d.len() as int } else { MAX_INDEXED_SYMBOLS as int })
            }),
    {
        let ghost all = strategy_symbols@.map_values(|s: String| s@);
        let mut symbol_to_id: StringHashMap<SymbolId> = StringHashMap::new();
        let mut id_to_symbol: Vec<String> = Vec::new();
        let n = strategy_symbols.len();
        let mut i: usize = 0;
        proof {
            lemma_first_seen_len(all);
        }
        while i < n
            invariant
                n == strategy_symbols@.len(),
                all == strategy_symbols@.map_values(|s: String| s@),
                i <= n,
                strings_view(id_to_symbol@) == first_seen(all.subrange(0, i as int)),
                id_to_symbol@.len() <= MAX_INDEXED_SYMBOLS,
                strings_view(id_to_symbol@).no_duplicates(),
                forall|x: Seq<char>| #[trigger] symbol_to_id@.contains_key(x) <==> strings_view(id_to_symbol@).contains(x),
                forall|k: int| 0 <= k < id_to_symbol@.len() ==> #[trigger] symbol_to_id@[id_to_symbol@[k]@] == k,
            ensures
                strings_view(id_to_symbol@) == first_seen(all.subrange(0, i as int)),
                id_to_symbol@.len() <= MAX_INDEXED_SYMBOLS,
                strings_view(id_to_symbol@).no_duplicates(),
                forall|x: Seq<char>| #[trigger] symbol_to_id@.contains_key(x) <==> strings_view(id_to_symbol@).contains(x),
                forall|k: int| 0 <= k < id_to_symbol@.len() ==> #[trigger] symbol_to_id@[id_to_symbol@[k]@] == k,
                i <= n,
                i == n || id_to_symbol@.len() == MAX_INDEXED_SYMBOLS,
            decreases n - i,
        {
            let symbol: &String = &strategy_symbols[i];
            proof {
                let r = all.subrange(0, i + 1);
                assert(r.drop_last() =~= all.subrange(0, i as int));
                assert(r.last() == symbol@);
                lemma_first_seen_len(all.subrange(0, i as int));
            }
            if symbol_to_id.contains_key(symbol.as_str()) {
                i = i + 1;
                continue;
            }
            if id_to_symbol.len() >= MAX_INDEXED_SYMBOLS {
                break;
            }
            let id: SymbolId = id_to_symbol.len() as u16;
            let ghost before = id_to_symbol@;
            symbol_to_id.insert(symbol.clone(), id);
            id_to_symbol.push(symbol.clone());
            proof {
                broadcast use vstd::seq_lib::lemma_seq_contains_after_push;
                assert(strings_view(id_to_symbol@) =~= strings_view(before).push(symbol@));
                assert forall|k: int| 0 <= k < id_to_symbol@.len() implies #[trigger] symbol_to_id@[id_to_symbol@[k]@] == k by {
                    if k < before.len() {
                        assert(id_to_symbol@[k] == before[k]);
                        assert(strings_view(before)[k] != symbol@);
                    }
                }
            }
            i = i + 1;
        }
        proof {
            let d = first_seen(all);
            lemma_first_seen_prefix_len(all, i as int);
            if i == n {
                assert(all.subrange(0, n as int) =~= all);
            }
        }
        let r = StrategySymbolIndex { symbol_to_id, id_to_symbol };
        r
    }

    /// Id of the symbol whose UTF-8 bytes are `symbol`, if indexed.
    pub fn symbol_id(&self, symbol: &[u8]) -> (r: Option<SymbolId>)
        ensures
            r == lookup_in(self.symbols(), symbol@),
            match r {
                Some(id) => id < self.symbols().len() && encode_utf8(self.symbols()[id as int]) == symbol@,
                None => forall|k: int| 0 <= k < self.symbols().len() ==> encode_utf8(#[trigger] self.symbols()[k]) != symbol@,
            },
    {
        proof {
            use_type_invariant(self);
        }
        match str_from_utf8(symbol) {
            None => {
                proof {
                    assert forall|k: int| 0 <= k < self.symbols().len() implies encode_utf8(#[trigger] self.symbols()[k]) != symbol@ by {
                        vstd::utf8::encode_utf8_valid_utf8(self.symbols()[k]);
                    }
                }
                None
            },
            Some(s) => {
                match self.symbol_to_id.get(s) {
                    Some(id) => {
                        proof {
                            let j = choose|j: int| 0 <= j < self.symbols().len() && self.symbols()[j] == s@;
                            assert(self.id_to_symbol@[j]@ == s@);
                            let syms = self.symbols();
                            let k = choose|k: int| 0 <= k < syms.len() && encode_utf8(syms[k]) == symbol@;
                            lemma_encode_utf8_injective(syms[k], syms[*id as int]);
                            assert(syms[k] == syms[*id as int]);
                            assert(k == *id as int);
                        }
                        Some(*id)
                    },
                    None => {
                        proof {
                            assert forall|k: int| 0 <= k < self.symbols().len() implies encode_utf8(#[trigger] self.symbols()[k]) != symbol@ by {
                                if encode_utf8(self.symbols()[k]) == symbol@ {
                                    assert(self.symbols()[k] == s@);
                                    assert(self.symbol_to_id@.contains_key(self.id_to_symbol@[k]@));
                                }
                            }
                        }
                        None
                    },
                }
            },
        }
    }

    /// The symbol with id `symbol_id`, if any.
    pub fn symbol(&self, symbol_id: SymbolId) -> (r: Option<&str>)
        ensures
            (symbol_id as int) < self.symbols().len() ==> r is Some && r->0@ == self.symbols()[symbol_id as int],
            (symbol_id as int) >= self.symbols().len() ==> r is None,
    {
        let k = symbol_id as usize;
        if k < self.id_to_symbol.len() {
            Some(self.id_to_symbol[k].as_str())
        } else {
            None
        }
    }
}

} // verus!
