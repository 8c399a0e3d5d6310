//! Interning of symbols: each distinct symbol is stored once and handed out
//! again on later requests, so repeated messages for one symbol share a buffer.

use vstd::prelude::*;
use std::sync::Arc;
use bytes::Bytes;
use crate::symbols::{bytes_content, bytes_copy_from_slice, normalize_gate_contract, gate_contract_symbol};
use crate::ingest::bytes_clone;
use crate::text::str_equals;

verus! {

/// Calls `<Arc<str> as From<&str>>::from`, which copies the string into a new
/// shared allocation holding exactly those characters.
#[verifier::external_body]
fn arc_str_from(s: &str) -> (r: Arc<str>)
    ensures
        (*r)@ == s@,
{
    Arc::from(s)
}

/// Calls `<Arc<str> as Clone>::clone`, which makes a new handle on the same
/// allocation, so it holds the same characters.
#[verifier::external_body]
fn arc_str_clone(a: &Arc<str>) -> (r: Arc<str>)
    ensures
        (**a)@ == (*r)@,
{
    a.clone()
}

/// Keys of an association list.
pub open spec fn pair_keys(s: Seq<(Vec<u8>, Bytes)>) -> Seq<Seq<u8>> {
    s.map_values(|p: (Vec<u8>, Bytes)| p.0@)
}

/// Every stored buffer of the list holds `f` of its key.
pub open spec fn holds_image(s: Seq<(Vec<u8>, Bytes)>, f: spec_fn(Seq<u8>) -> Seq<u8>) -> bool {
    forall|k: int| 0 <= k < s.len() ==> bytes_content(#[trigger] s[k].1) == f(s[k].0@)
}

/// Keys of the string cache.
pub open spec fn string_keys(s: Seq<(String, Arc<str>)>) -> Seq<Seq<char>> {
    s.map_values(|p: (String, Arc<str>)| p.0@)
}

/// Cache of interned symbols: as strings, as raw bytes, and Gate contracts by
/// their canonical symbol. Nothing is ever evicted.
#[derive(Debug, Default)]
pub struct SymbolCache {
    cache: Vec<(String, Arc<str>)>,
    bytes_cache: Vec<(Vec<u8>, Bytes)>,
    gate_contract_cache: Vec<(Vec<u8>, Bytes)>,
}

impl SymbolCache {
    #[verifier::type_invariant]
    spec fn inv(self) -> bool {
        &&& forall|k: int| 0 <= k < self.cache@.len() ==> (*(#[trigger] self.cache@[k]).1)@ == self.cache@[k].0@
        &&& pair_keys(self.bytes_cache@).no_duplicates()
        &&& holds_image(self.bytes_cache@, |b: Seq<u8>| b)
        &&& pair_keys(self.gate_contract_cache@).no_duplicates()
        &&& holds_image(self.gate_contract_cache@, |c: Seq<u8>| gate_contract_symbol(c))
        &&& string_keys(self.cache@).no_duplicates()
    }

    /// Symbols interned as strings, in the order they were first asked for.
    pub closed spec fn interned_strings(&self) -> Seq<Seq<char>> {
        string_keys(self.cache@)
    }

    /// Byte strings interned as raw bytes, in the order they were first asked for.
    pub closed spec fn interned_bytes(&self) -> Seq<Seq<u8>> {
        pair_keys(self.bytes_cache@)
    }

    /// Gate contracts interned, in the order they were first asked for.
    pub closed spec fn interned_contracts(&self) -> Seq<Seq<u8>> {
        pair_keys(self.gate_contract_cache@)
    }

    /// An empty cache.
    pub fn new() -> (r: Self)
        ensures
            r.interned_strings().len() == 0,
            r.interned_bytes().len() == 0,
            r.interned_contracts().len() == 0,
    {
        let r = SymbolCache { cache: Vec::new(), bytes_cache: Vec::new(), gate_contract_cache: Vec::new() };
        proof {
            assert(string_keys(r.cache@) =~= Seq::empty());
            assert(pair_keys(r.bytes_cache@) =~= Seq::empty());
            assert(pair_keys(r.gate_contract_cache@) =~= Seq::empty());
        }
        r
    }

    /// Position of `key` in an association list, if it is there.
    fn find_pair(list: &Vec<(Vec<u8>, Bytes)>, key: &[u8]) -> (r: Option<usize>)
        ensures
            match r {
                Some(i) => i < list@.len() && list@[i as int].0@ == key@,
                None => !pair_keys(list@).contains(key@),
            },
    {
        let mut i: usize = 0;
        while i < list.len()
            invariant
                i <= list@.len(),
                forall|j: int| 0 <= j < i ==> list@[j].0@ != key@,
            decreases list@.len() - i,
        {
            if bytes_equal(list[i].0.as_slice(), key) {
                return Some(i);
            }
            i = i + 1;
        }
        proof {
            if pair_keys(list@).contains(key@) {
                let j = choose|j: int| 0 <= j < pair_keys(list@).len() && pair_keys(list@)[j] == key@;
                assert(list@[j].0@ == key@);
            }
        }
        None
    }

    /// The interned bytes equal to `symbol`, stored on first use.
    pub fn intern_bytes(&mut self, symbol: &[u8]) -> (r: Bytes)
        ensures
            bytes_content(r) == symbol@,
            final(self).interned_strings() == old(self).interned_strings(),
            final(self).interned_contracts() == old(self).interned_contracts(),
            old(self).interned_bytes().contains(symbol@) ==> final(self).interned_bytes() == old(self).interned_bytes(),
            !old(self).interned_bytes().contains(symbol@) ==> final(self).interned_bytes() == old(self).interned_bytes().push(symbol@),
    {
        proof { use_type_invariant(&*self); }
        let found = Self::find_pair(&self.bytes_cache, symbol);
        if let Some(i) = found {
            proof {
                assert(bytes_content(self.bytes_cache@[i as int].1) == self.bytes_cache@[i as int].0@);
                assert(pair_keys(self.bytes_cache@)[i as int] == symbol@);
            }
            return bytes_clone(&self.bytes_cache[i].1);
        }
        let bytes = bytes_copy_from_slice(symbol);
        let stored = bytes_clone(&bytes);
        let key = slice_to_vec(symbol);
        let mut list: Vec<(Vec<u8>, Bytes)> = Vec::new();
        std::mem::swap(&mut list, &mut self.bytes_cache);
        let ghost before = list@;
        list.push((key, stored));
        proof {
            assert(pair_keys(list@) =~= pair_keys(before).push(symbol@));
        }
        std::mem::swap(&mut list, &mut self.bytes_cache);
        bytes
    }

    /// The interned canonical symbol of a Gate contract (see
    /// [`gate_contract_symbol`]), stored on first use; the canonical symbol is
    /// interned as bytes too.
    pub fn intern_gate_contract(&mut self, contract: &[u8]) -> (r: Bytes)
        ensures
            bytes_content(r) == gate_contract_symbol(contract@),
            final(self).interned_strings() == old(self).interned_strings(),
            old(self).interned_contracts().contains(contract@) ==> {
                &&& final(self).interned_contracts() == old(self).interned_contracts()
                &&& final(self).interned_bytes() == old(self).interned_bytes()
            },
            !old(self).interned_contracts().contains(contract@) ==> {
                &&& final(self).interned_contracts() == old(self).interned_contracts().push(contract@)
                &&& old(self).interned_bytes().contains(gate_contract_symbol(contract@))
                    ==> final(self).interned_bytes() == old(self).interned_bytes()
                &&& !old(self).interned_bytes().contains(gate_contract_symbol(contract@))
                    ==> final(self).interned_bytes() == old(self).interned_bytes().push(gate_contract_symbol(contract@))
            },
    {
        proof { use_type_invariant(&*self); }
        let found = Self::find_pair(&self.gate_contract_cache, contract);
        if let Some(i) = found {
            proof {
                assert(bytes_content(self.gate_contract_cache@[i as int].1)
                    == gate_contract_symbol(self.gate_contract_cache@[i as int].0@));
                assert(pair_keys(self.gate_contract_cache@)[i as int] == contract@);
            }
            return bytes_clone(&self.gate_contract_cache[i].1);
        }
        let normalized = normalize_gate_contract(contract);
        let symbol = self.intern_bytes(normalized.as_slice());
        proof { use_type_invariant(&*self); }
        let stored = bytes_clone(&symbol);
        let key = slice_to_vec(contract);
        let mut list: Vec<(Vec<u8>, Bytes)> = Vec::new();
        std::mem::swap(&mut list, &mut self.gate_contract_cache);
        let ghost before = list@;
        list.push((key, stored));
        proof {
            assert(pair_keys(list@) =~= pair_keys(before).push(contract@));
        }
        std::mem::swap(&mut list, &mut self.gate_contract_cache);
        symbol
    }

    /// The interned string equal to `symbol`, stored on first use.
    pub fn intern(&mut self, symbol: &str) -> (r: Arc<str>)
        ensures
            (*r)@ == symbol@,
            final(self).interned_bytes() == old(self).interned_bytes(),
            final(self).interned_contracts() == old(self).interned_contracts(),
            old(self).interned_strings().contains(symbol@) ==> final(self).interned_strings() == old(self).interned_strings(),
            !old(self).interned_strings().contains(symbol@) ==> final(self).interned_strings() == old(self).interned_strings().push(symbol@),
    {
        proof { use_type_invariant(&*self); }
        let mut i: usize = 0;
        while i < self.cache.len()
            invariant
                i <= self.cache@.len(),
                forall|j: int| 0 <= j < i ==> self.cache@[j].0@ != symbol@,
            decreases self.cache@.len() - i,
        {
            if str_equals(self.cache[i].0.as_str(), symbol) {
                proof {
                    use_type_invariant(&*self);
                    assert((*self.cache@[i as int].1)@ == self.cache@[i as int].0@);
                    assert(string_keys(self.cache@)[i as int] == symbol@);
                }
                return arc_str_clone(&self.cache[i].1);
            }
            i = i + 1;
        }
        proof {
            if string_keys(self.cache@).contains(symbol@) {
                let j = choose|j: int| 0 <= j < string_keys(self.cache@).len() && string_keys(self.cache@)[j] == symbol@;
                assert(self.cache@[j].0@ == symbol@);
            }
        }
        let interned = arc_str_from(symbol);
        let stored = arc_str_clone(&interned);
        let key = symbol.to_string();
        let mut list: Vec<(String, Arc<str>)> = Vec::new();
        std::mem::swap(&mut list, &mut self.cache);
        let ghost before = list@;
        list.push((key, stored));
        proof {
            assert(string_keys(list@) =~= string_keys(before).push(symbol@));
        }
        std::mem::swap(&mut list, &mut self.cache);
        interned
    }
}

/// Byte-wise equality of two slices.
fn bytes_equal(a: &[u8], b: &[u8]) -> (r: bool)
    ensures
        r == (a@ == b@),
{
    if a.len() != b.len() {
        return false;
    }
    let mut i: usize = 0;
    while i < a.len()
        invariant
            a@.len() == b@.len(),
            i <= a@.len(),
            forall|j: int| 0 <= j < i ==> a@[j] == b@[j],
        decreases a@.len() - i,
    {
        if a[i] != b[i] {
            return false;
        }
        i = i + 1;
    }
    proof {
        assert(a@ =~= b@);
    }
    true
}

/// A copy of the slice.
fn slice_to_vec(s: &[u8]) -> (r: Vec<u8>)
    ensures
        r@ == s@,
{
    let mut out: Vec<u8> = Vec::new();
    let mut i: usize = 0;
    while i < s.len()
        invariant
            i <= s@.len(),
            out@ == s@.subrange(0, i as int),
        decreases s@.len() - i,
    {
        out.push(s[i]);
        proof {
            assert(out@ =~= s@.subrange(0, i + 1));
        }
        i = i + 1;
    }
    proof {
        assert(out@ =~= s@);
    }
    out
}

} // verus!
