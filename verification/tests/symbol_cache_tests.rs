use hft_lead_lag::symbol_cache::SymbolCache;
use std::sync::Arc;

#[test]
fn test_symbol_interning() {
    let mut cache = SymbolCache::new();

    let s1 = cache.intern("BTCUSDT");
    let s2 = cache.intern("BTCUSDT");

    // Should be same Arc
    assert!(Arc::ptr_eq(&s1, &s2));

    let s3 = cache.intern("ETHUSDT");
    assert!(!Arc::ptr_eq(&s1, &s3));
}

#[test]
fn test_symbol_bytes_reuse_same_allocation() {
    let mut cache = SymbolCache::new();

    let s1 = cache.intern_bytes(b"BTCUSDT");
    let s2 = cache.intern_bytes(b"BTCUSDT");

    assert_eq!(s1, s2);
    assert_eq!(s1.as_ptr(), s2.as_ptr());
}

#[test]
fn test_symbol_bytes_preserves_non_utf8_payload() {
    let mut cache = SymbolCache::new();
    let raw = b"BTC\xffUSDT";

    let s1 = cache.intern_bytes(raw);
    let s2 = cache.intern_bytes(raw);

    assert_eq!(s1.as_ref(), raw);
    assert_eq!(s2.as_ref(), raw);
    assert_eq!(s1.as_ptr(), s2.as_ptr());
}

#[test]
fn test_gate_contract_normalization() {
    let mut cache = SymbolCache::new();

    let s1 = cache.intern_gate_contract(b"BTC_USDT");
    let s2 = cache.intern_gate_contract(b"BTC_USD");
    let s3 = cache.intern_gate_contract(b"BTCUSDT");

    assert_eq!(s1.as_ref(), b"BTCUSDT");
    assert_eq!(s2.as_ref(), b"BTCUSDT");
    assert_eq!(s3.as_ref(), b"BTCUSDT");
}

#[test]
fn gate_contracts_share_the_interned_canonical_symbol() {
    let mut cache = SymbolCache::new();

    let direct = cache.intern_bytes(b"ETHUSDT");
    let via_usdt = cache.intern_gate_contract(b"ETH_USDT");
    let via_usd = cache.intern_gate_contract(b"ETH_USD");
    let again = cache.intern_gate_contract(b"ETH_USDT");

    assert_eq!(via_usdt.as_ptr(), direct.as_ptr());
    assert_eq!(via_usd.as_ptr(), direct.as_ptr());
    assert_eq!(again.as_ptr(), direct.as_ptr());
}

#[test]
fn interned_strings_keep_their_text() {
    let mut cache = SymbolCache::default();
    let s = cache.intern("SOLUSDT");
    assert_eq!(&*s, "SOLUSDT");
    let other = cache.intern("");
    assert_eq!(&*other, "");
}
