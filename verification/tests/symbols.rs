use database::{InternError, MemoryPool, Symbol, SymbolInterner};
use std::hash::BuildHasher;

fn record(text: &str) -> Vec<u8> {
    let mut bytes = (text.len() as u32).to_ne_bytes().to_vec();
    bytes.extend_from_slice(text.as_bytes());
    bytes
}

fn arena(shard_count: u32, texts: &[&str]) -> Vec<u8> {
    let mut bytes = shard_count.to_ne_bytes().to_vec();
    for text in texts {
        bytes.extend_from_slice(&record(text));
    }
    bytes
}

fn fx_shard(text: &str, shard_count: u64) -> u32 {
    (rustc_hash::FxBuildHasher.hash_one(text) & (shard_count - 1)) as u32
}

#[test]
fn test_symbol_interner_basic() {
    let mut interner = SymbolInterner::with_capacity(100);

    let a = interner.get_or_intern("hello");
    let b = interner.get_or_intern("hello");
    let c = interner.get_or_intern("world");

    assert_eq!(a, b, "Identical strings should return the same symbol");
    assert_ne!(a, c, "Different strings should return different symbols");
    assert_eq!(interner.len(), 2);
    assert_eq!(interner.resolve(a), Some("hello"));
    assert_eq!(interner.resolve(c), Some("world"));
}

#[test]
fn test_empty_string() {
    let mut interner = SymbolInterner::new();
    let a = interner.get_or_intern("");
    let b = interner.get_or_intern("");

    assert_eq!(a, b);
    assert_eq!(interner.resolve(a), Some(""));
}

#[test]
fn test_unicode_strings() {
    let mut interner = SymbolInterner::new();
    let strings = ["🦀", "你好", "Привет", "こんにちは", "مرحبا"];

    let symbols: Vec<_> = strings.iter().map(|&s| interner.get_or_intern(s)).collect();

    for (i, &s) in strings.iter().enumerate() {
        assert_eq!(interner.resolve(symbols[i]), Some(s));
    }
}

#[test]
fn test_long_strings() {
    let mut interner = SymbolInterner::new();
    let long_str_1 = "A".repeat(10_000);
    let long_str_2 = "B".repeat(10_000);

    let sym1 = interner.get_or_intern(&long_str_1);
    let sym2 = interner.get_or_intern(&long_str_2);

    assert_eq!(interner.resolve(sym1), Some(long_str_1.as_str()));
    assert_eq!(interner.resolve(sym2), Some(long_str_2.as_str()));
}

#[test]
fn test_capacity_growth() {
    let mut interner = SymbolInterner::with_capacity(1);
    let count = 5_000;

    let mut symbols = Vec::with_capacity(count);
    for i in 0..count {
        symbols.push(interner.get_or_intern(&format!("grow-{i}")));
    }

    assert_eq!(interner.len(), count);
    for (i, &sym) in symbols.iter().enumerate() {
        assert_eq!(interner.resolve(sym), Some(format!("grow-{i}").as_str()));
    }
}

#[test]
fn test_resolve_lock_free_matches_get() {
    let mut interner = SymbolInterner::new();
    let symbols: Vec<_> = (0..10_000)
        .map(|i| interner.get_or_intern(&format!("sym-{i}")))
        .collect();

    for (i, sym) in symbols.iter().enumerate() {
        assert_eq!(interner.resolve(*sym), Some(format!("sym-{i}").as_str()));
    }
}

#[test]
fn raw_symbols_round_trip() {
    assert_eq!(Symbol::from_raw(0), None);
    for raw in [1, 2, 0x00FF_FFFF, 0x0100_0001, 0xFFFF_FFFF] {
        let symbol = Symbol::from_raw(raw).unwrap();
        assert_eq!(symbol.into_raw(), raw);
        assert_eq!(Symbol::from_raw(symbol.into_raw()), Some(symbol));
    }
}

#[test]
fn symbols_are_ordered_as_their_raw_values() {
    let raws = [1u32, 2, 0x00FF_FFFF, 0x0100_0001, 0xFFFF_FFFF];
    for a in raws {
        for b in raws {
            let (x, y) = (Symbol::from_raw(a).unwrap(), Symbol::from_raw(b).unwrap());
            assert_eq!(x < y, a < b);
            assert_eq!(x <= y, a <= b);
            assert_eq!(x == y, a == b);
            assert_eq!(x.partial_cmp(&y), a.partial_cmp(&b));
            assert_eq!(x.cmp(&y), a.cmp(&b));
        }
    }
}

#[test]
fn symbol_names_shard_and_index() {
    let mut interner = SymbolInterner::new();
    let shard = fx_shard("hello", 16);
    assert_eq!(interner.get_or_intern("hello").into_raw(), (shard << 24) | 1);

    let mut single = SymbolInterner::with_capacity_and_shards(0, 1);
    assert_eq!(single.get_or_intern("a").into_raw(), 1);
    assert_eq!(single.get_or_intern("b").into_raw(), 2);
    assert_eq!(single.get_or_intern("a").into_raw(), 1);
    assert_eq!(single.get_or_intern("c").into_raw(), 3);
}

#[test]
fn texts_spread_over_the_shards() {
    let mut interner = SymbolInterner::new();
    let mut next = [1u32; 16];
    for i in 0..200 {
        let text = format!("text {i}");
        let shard = fx_shard(&text, 16);
        let expected = (shard << 24) | next[shard as usize];
        next[shard as usize] += 1;
        assert_eq!(interner.get_or_intern(&text).into_raw(), expected);
    }
    assert!(next.iter().filter(|&&n| n > 1).count() > 1);
}

#[test]
fn shard_counts_are_clamped_and_rounded() {
    for (asked, got) in [(0usize, 1u32), (1, 1), (3, 4), (16, 16), (200, 256), (256, 256), (9_000, 256)] {
        let interner = SymbolInterner::with_capacity_and_shards(10, asked);
        assert_eq!(interner.bytes(), got.to_ne_bytes());
    }
    assert_eq!(SymbolInterner::default().bytes(), 16u32.to_ne_bytes());
}

#[test]
fn capacities_that_overflow_are_told_apart() {
    assert!(SymbolInterner::capacity_fits(0, 16));
    assert!(SymbolInterner::capacity_fits(1_000_000, 1));
    assert!(!SymbolInterner::capacity_fits(usize::MAX, 1));
    assert!(!SymbolInterner::capacity_fits(usize::MAX, 4));
}

#[test]
fn get_and_contains_find_what_was_interned() {
    let mut interner = SymbolInterner::new();
    assert!(interner.is_empty());
    assert_eq!(interner.get("a"), None);
    assert!(!interner.contains("a"));
    let a = interner.get_or_intern("a");
    assert_eq!(interner.get("a"), Some(a));
    assert!(interner.contains("a"));
    assert_eq!(interner.get("b"), None);
    assert!(!interner.is_empty());
    assert_eq!(interner.len(), 1);
    // Texts with the same first four bytes are told apart.
    let abcde = interner.get_or_intern("abcde");
    let abcdf = interner.get_or_intern("abcdf");
    let abcd = interner.get_or_intern("abcd");
    assert_eq!(interner.get("abcde"), Some(abcde));
    assert_eq!(interner.get("abcdf"), Some(abcdf));
    assert_eq!(interner.get("abcd"), Some(abcd));
    assert_eq!(interner.len(), 4);
}

#[test]
fn lookups_outlive_the_cache() {
    // More texts than the cache has entries, so that entries are replaced.
    let mut interner = SymbolInterner::new();
    let symbols: Vec<Symbol> = (0..3_000).map(|i| interner.get_or_intern(&format!("k{i}"))).collect();
    for (i, symbol) in symbols.iter().enumerate() {
        assert_eq!(interner.get(&format!("k{i}")), Some(*symbol));
        assert_eq!(interner.get_or_intern(&format!("k{i}")), *symbol);
        assert_eq!(interner.get_or_intern(&format!("k{i}")), *symbol);
    }
    assert_eq!(interner.len(), 3_000);
}

#[test]
fn interning_keeps_symbols_and_offsets() {
    let mut interner = SymbolInterner::new();
    let a = interner.get_or_intern("first");
    let offset = interner.offset_of(a);
    assert_eq!(offset, Some(4));
    let before = interner.bytes().to_vec();
    for i in 0..100 {
        interner.get_or_intern(&format!("later {i}"));
    }
    assert_eq!(interner.get("first"), Some(a));
    assert_eq!(interner.resolve(a), Some("first"));
    assert_eq!(interner.offset_of(a), offset);
    assert_eq!(&interner.bytes()[..before.len()], &before[..]);
}

#[test]
fn bytes_are_header_and_records() {
    let mut interner = SymbolInterner::new();
    interner.get_or_intern("ab");
    interner.get_or_intern("");
    interner.get_or_intern("ü");
    interner.get_or_intern("ab");
    assert_eq!(interner.bytes(), &arena(16, &["ab", "", "ü"])[..]);
}

#[test]
fn offsets_lead_to_texts() {
    let mut interner = SymbolInterner::new();
    let texts = ["one", "", "three", "vier"];
    let symbols: Vec<Symbol> = texts.iter().map(|t| interner.get_or_intern(t)).collect();
    let mut expected = 4;
    for (text, symbol) in texts.iter().zip(&symbols) {
        let offset = interner.offset_of(*symbol).unwrap();
        assert_eq!(offset, expected);
        assert_eq!(SymbolInterner::resolve_raw_offset(interner.bytes(), offset), Some(*text));
        assert_eq!(interner.resolve_unchecked(*symbol), *text);
        expected += 4 + text.len() as u32;
    }
}

#[test]
fn unknown_symbols_stand_for_nothing() {
    let mut interner = SymbolInterner::with_capacity_and_shards(0, 1);
    interner.get_or_intern("only");
    let next = Symbol::from_raw(2).unwrap();
    assert_eq!(interner.resolve(next), None);
    assert_eq!(interner.offset_of(next), None);
    let last = Symbol::from_raw(0x00FF_FFFF).unwrap();
    assert_eq!(interner.resolve(last), None);
    assert_eq!(interner.offset_of(last), None);
    let other_shard = Symbol::from_raw(0x0100_0001).unwrap();
    assert_eq!(interner.resolve(other_shard), None);
    assert_eq!(interner.offset_of(other_shard), None);
    let no_index = Symbol::from_raw(0x0100_0000).unwrap();
    assert_eq!(interner.resolve(no_index), None);
}

#[test]
fn raw_offsets_are_checked() {
    let bytes = arena(16, &["abc"]);
    assert_eq!(SymbolInterner::resolve_raw_offset(&bytes, 4), Some("abc"));
    assert_eq!(SymbolInterner::resolve_raw_offset(&bytes, 0), None);
    assert_eq!(SymbolInterner::resolve_raw_offset(&bytes, 8), None);
    assert_eq!(SymbolInterner::resolve_raw_offset(&bytes, 1_000), None);
    assert_eq!(SymbolInterner::resolve_raw_offset(&bytes, u32::MAX), None);
    assert_eq!(SymbolInterner::resolve_raw_offset(&bytes[..10], 4), None);
    let mut broken = bytes.clone();
    broken[8] = 0xFF;
    assert_eq!(SymbolInterner::resolve_raw_offset(&broken, 4), None);
}

#[test]
fn loading_gives_back_texts_and_symbols() {
    let mut interner = SymbolInterner::with_capacity_and_shards(5, 8);
    let texts: Vec<String> = (0..500).map(|i| format!("text-{i}-é")).collect();
    let symbols: Vec<Symbol> = texts.iter().map(|t| interner.get_or_intern(t)).collect();
    let loaded = SymbolInterner::from_bytes(interner.bytes());
    assert_eq!(loaded.len(), 500);
    assert_eq!(loaded.bytes(), interner.bytes());
    for (text, symbol) in texts.iter().zip(&symbols) {
        assert_eq!(loaded.get(text), Some(*symbol));
        assert_eq!(loaded.resolve(*symbol), Some(text.as_str()));
    }
    match SymbolInterner::try_from_bytes(interner.bytes()) {
        Ok(again) => assert_eq!(again.bytes(), interner.bytes()),
        Err(_) => panic!("the bytes of an interner can be loaded"),
    }
}

#[test]
fn loading_passes_over_what_is_not_a_text() {
    let mut bytes = arena(4, &["a", "b"]);
    let mut broken = record("xy");
    broken[4] = 0xFF;
    bytes.extend_from_slice(&broken);
    bytes.extend_from_slice(&record("b"));
    bytes.extend_from_slice(&record("c"));
    let whole = bytes.len();
    bytes.extend_from_slice(&record("cut off"));
    let loaded = SymbolInterner::from_bytes(&bytes[..whole + 6]);
    assert_eq!(loaded.bytes(), &arena(4, &["a", "b", "c"])[..]);
}

#[test]
fn loading_without_header_has_the_default_shards() {
    for len in 0..4 {
        let bytes = vec![7u8; len];
        assert_eq!(SymbolInterner::from_bytes(&bytes).bytes(), 16u32.to_ne_bytes());
        assert_eq!(MemoryPool::read_shard_count_header(&bytes), None);
    }
    let header = 32u32.to_ne_bytes();
    assert_eq!(MemoryPool::read_shard_count_header(&header), Some(32));
    assert_eq!(SymbolInterner::from_bytes(&header).bytes(), header);
    assert!(SymbolInterner::from_bytes(&header).is_empty());
    assert_eq!(SymbolInterner::from_bytes(&0u32.to_ne_bytes()).bytes(), 1u32.to_ne_bytes());
    assert_eq!(SymbolInterner::from_bytes(&5u32.to_ne_bytes()).bytes(), 8u32.to_ne_bytes());
    assert_eq!(SymbolInterner::from_bytes(&u32::MAX.to_ne_bytes()).bytes(), 256u32.to_ne_bytes());
}

#[test]
fn trying_to_intern_agrees_with_interning() {
    let mut tried = SymbolInterner::new();
    let mut sure = SymbolInterner::new();
    for text in ["a", "b", "a", "", "long enough to matter"] {
        assert_eq!(tried.try_get_or_intern(text), Ok(sure.get_or_intern(text)));
    }
    assert_eq!(tried.bytes(), sure.bytes());
}

#[test]
fn a_full_arena_takes_nothing_more() {
    let mut interner = SymbolInterner::new();
    let known = interner.get_or_intern("known");
    let huge = "x".repeat(0x1000_0000);
    assert_eq!(interner.try_get_or_intern(&huge), Err(InternError::PoolExhausted));
    assert_eq!(interner.try_get_or_intern("tiny"), Err(InternError::PoolExhausted));
    assert_eq!(interner.try_get_or_intern("known"), Ok(known));
    assert_eq!(interner.get("tiny"), None);
    assert_eq!(interner.len(), 1);
    assert_eq!(interner.bytes(), &arena(16, &["known"])[..]);
}

#[test]
fn the_arena_can_be_filled_to_the_last_byte() {
    let mut interner = SymbolInterner::new();
    let text = "y".repeat(0x1000_0000 - 8);
    let symbol = interner.try_get_or_intern(&text).unwrap();
    assert_eq!(interner.bytes().len(), 0x1000_0000);
    assert_eq!(interner.offset_of(symbol), Some(4));
    assert_eq!(interner.try_get_or_intern(""), Err(InternError::PoolExhausted));
}

#[test]
fn too_many_bytes_cannot_be_loaded() {
    let half = "z".repeat(0x0800_0000);
    let mut bytes = arena(2, &[&half]);
    bytes.extend_from_slice(&record(&format!("{half}!")));
    match SymbolInterner::try_from_bytes(&bytes) {
        Ok(_) => panic!("the arena has no room for both"),
        Err(e) => assert_eq!(e, InternError::PoolExhausted),
    }
}

#[test]
fn a_full_shard_takes_nothing_more() {
    // As many texts as one shard has indices, each of four ASCII characters.
    const TEXTS: usize = 0x00FF_FFFF;
    let mut bytes = vec![0u8; 4 + 8 * TEXTS];
    bytes[..4].copy_from_slice(&1u32.to_ne_bytes());
    let len = 4u32.to_ne_bytes();
    for (i, record) in bytes[4..].chunks_exact_mut(8).enumerate() {
        record[..4].copy_from_slice(&len);
        let text = [i & 63, i >> 6 & 63, i >> 12 & 63, i >> 18].map(|part| part as u8);
        record[4..].copy_from_slice(&text);
    }
    let mut interner = SymbolInterner::from_bytes(&bytes);
    assert_eq!(interner.len(), TEXTS);
    assert_eq!(interner.try_get_or_intern("one more"), Err(InternError::ShardFull));
    assert_eq!(interner.len(), TEXTS);
}

#[test]
fn long_arenas_are_loaded_too() {
    let mut interner = SymbolInterner::new();
    let half = "w".repeat(0x0240_0000);
    let a = interner.get_or_intern(&half);
    let b = interner.get_or_intern(&format!("{half}!"));
    assert!(interner.bytes().len() > 0x400_0000);
    match SymbolInterner::try_from_bytes(interner.bytes()) {
        Ok(loaded) => {
            assert_eq!(loaded.len(), 2);
            assert_eq!(loaded.resolve(a), Some(half.as_str()));
            assert_eq!(loaded.resolve(b).unwrap().len(), half.len() + 1);
        }
        Err(_) => panic!("the bytes of an interner can be loaded"),
    }
}
