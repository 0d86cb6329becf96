use codec_core::substitution::{
    build_map, decode, encode, export_substitution_tables, is_encoded_symbol,
    SubstitutionCipherEngine,
};

#[test]
fn encode_digit_then_decode_recovers_it() {
    // Whatever permutation the map holds, "9" must round-trip.
    let m = build_map(Some(0));
    let enc = encode("9", &m, true, false);
    assert_ne!(enc, "9");
    assert_eq!(decode(&enc, &m), "9");
    let m2 = build_map(Some(123456789));
    let enc2 = encode("9", &m2, true, false);
    assert_eq!(decode(&enc2, &m2), "9");
}

#[test]
fn full_roundtrip_over_both_source_alphabets() {
    let m = build_map(Some(42));
    let text = "0123456789\u{4E00}\u{4E01}\u{4E7F}\u{4EEF}905";
    let enc = encode(text, &m, true, true);
    assert_ne!(enc, text);
    assert_eq!(decode(&enc, &m), text);
}

#[test]
fn pass_through_of_unmapped_characters() {
    let m = build_map(Some(7));
    // Latin text, spaces and CJK outside the fixed block pass through when
    // only digits are substituted.
    let text = "price: 42 \u{9999}";
    let enc = encode(text, &m, true, false);
    assert!(enc.starts_with("price: "));
    assert!(enc.ends_with(" \u{9999}"));
    // Disabled alphabets substitute nothing at all.
    assert_eq!(encode(text, &m, false, false), text);
    // Round-tripping is promised for source-alphabet text; the decoded
    // digits come back even when the rest of the text is left out.
    let digits_only = "42";
    assert_eq!(decode(&encode(digits_only, &m, true, true), &m), digits_only);
}

#[test]
fn encode_never_resubstitutes_its_own_output() {
    let m = build_map(Some(3));
    // A digit-target character in the input is not a source symbol and must
    // pass through even with digits enabled.
    let enc = encode("abcdefghij", &m, true, true);
    assert_eq!(enc, "abcdefghij");
}

#[test]
fn same_seed_same_map() {
    let a = build_map(Some(99));
    let b = build_map(Some(99));
    let text = "3141592653\u{4E10}\u{4E20}";
    assert_eq!(encode(text, &a, true, true), encode(text, &b, true, true));
    let ta = export_substitution_tables(&a);
    let tb = export_substitution_tables(&b);
    assert_eq!(ta.number_map, tb.number_map);
    assert_eq!(ta.chinese_map, tb.chinese_map);
}

#[test]
fn encoded_symbols_are_exactly_the_reverse_map_values() {
    let m = build_map(Some(5));
    let t = export_substitution_tables(&m);
    assert_eq!(t.number_map.len(), 10);
    assert_eq!(t.chinese_map.len(), 240);
    assert_eq!(t.reverse_number_map.len(), 10);
    assert_eq!(t.reverse_chinese_map.len(), 240);
    for (value, source) in t.reverse_number_map.iter() {
        assert!(is_encoded_symbol(value, &m));
        // The reverse map inverts the forward map.
        let enc = encode(source, &m, true, true);
        assert_eq!(&enc, value);
    }
    for (value, source) in t.reverse_chinese_map.iter() {
        assert!(is_encoded_symbol(value, &m));
        let enc = encode(source, &m, true, true);
        assert_eq!(&enc, value);
    }
    // Symbols never produced by encode are not encoded symbols.
    assert!(!is_encoded_symbol("0", &m));
    assert!(!is_encoded_symbol("~", &m));
    assert!(!is_encoded_symbol("\u{4E00}", &m));
    assert!(!is_encoded_symbol("", &m));
    assert!(!is_encoded_symbol("ab", &m));
}

#[test]
fn forward_tables_are_bijective() {
    let m = build_map(Some(1234));
    let t = export_substitution_tables(&m);
    let mut digit_values: Vec<String> = t.number_map.iter().map(|p| p.1.clone()).collect();
    digit_values.sort();
    digit_values.dedup();
    assert_eq!(digit_values.len(), 10);
    let mut cjk_values: Vec<String> = t.chinese_map.iter().map(|p| p.1.clone()).collect();
    cjk_values.sort();
    cjk_values.dedup();
    assert_eq!(cjk_values.len(), 240);
    // The two target alphabets stay disjoint.
    for d in digit_values.iter() {
        assert!(!cjk_values.contains(d));
    }
}

#[test]
fn engine_caches_one_map_for_encode_and_decode() {
    let mut e = SubstitutionCipherEngine::new();
    let text = "12345\u{4E42}\u{4E43}67890";
    let enc = e.obfuscate_text(text, true, true);
    let dec = e.deobfuscate_text(&enc);
    assert_eq!(dec, text);
    // The cached accessor returns the same tables every time.
    let a = e.cached_map();
    let b = e.cached_map();
    let ta = export_substitution_tables(&a);
    let tb = export_substitution_tables(&b);
    assert_eq!(ta.number_map, tb.number_map);
    assert_eq!(ta.chinese_map, tb.chinese_map);
}

#[test]
fn fresh_map_replaces_the_cache() {
    let mut e = SubstitutionCipherEngine::new();
    let first = e.cached_map();
    let fresh = e.fresh_map();
    let cached_after = e.cached_map();
    // After a fresh build the cache holds the new map.
    let t_fresh = export_substitution_tables(&fresh);
    let t_after = export_substitution_tables(&cached_after);
    assert_eq!(t_fresh.number_map, t_after.number_map);
    assert_eq!(t_fresh.chinese_map, t_after.chinese_map);
    // Encoding through the first map still round-trips through it alone.
    let enc = encode("777", &first, true, false);
    assert_eq!(decode(&enc, &first), "777");
}

#[test]
fn volatile_map_still_roundtrips() {
    let m = build_map(None);
    let text = "42\u{4E99}";
    assert_eq!(decode(&encode(text, &m, true, true), &m), text);
}
