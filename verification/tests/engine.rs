use simd_detective::aggregate::{aggregate, collect_cpu_flags, union_results};
use simd_detective::catalog::{FunctionParam, Intrinsic, Intrinsics, Signature, Synopsis};
use simd_detective::index::{build_intrinsic_name_hashmap, duplicate_names};
use simd_detective::matcher::check_for_intrinsics;
use simd_detective::nameset::NameSet;
use simd_detective::sanitize::remove_comments;
use std::collections::HashSet;

fn intr(name: &str, flags: &[&str]) -> Intrinsic {
    Intrinsic {
        instruction: format!("instr-{}", name),
        signature: Signature {
            name: name.to_string(),
            params: vec![],
            rettype: "void".to_string(),
        },
        synopsis: Synopsis {
            cpuids: flags.iter().map(|f| f.to_string()).collect(),
        },
        description: format!("desc-{}", name),
        operation: String::new(),
    }
}

fn empty_catalog() -> Intrinsics {
    Intrinsics {
        avx_512: vec![],
        other: vec![],
        sse_all: vec![],
        avx_all: vec![],
        svml: vec![],
        mmx: vec![],
        amx: vec![],
    }
}

fn as_set(s: &NameSet) -> HashSet<String> {
    s.names.iter().cloned().collect()
}

fn set_of(items: &[&str]) -> HashSet<String> {
    items.iter().map(|s| s.to_string()).collect()
}

fn name_set(items: &[&str]) -> NameSet {
    let mut r = NameSet::new();
    for it in items {
        r.insert(it.to_string());
    }
    r
}

#[test]
fn matcher_finds_name_exactly_once() {
    let mut cat = empty_catalog();
    cat.avx_512.push(intr("_mm512_add_epi32", &["AVX512F"]));
    let index = build_intrinsic_name_hashmap(&cat);
    let r = check_for_intrinsics("x = _mm512_add_epi32(a, b);", &index);
    assert_eq!(r.names, vec!["_mm512_add_epi32".to_string()]);
}

#[test]
fn matcher_repeated_occurrences_still_one_entry() {
    let mut cat = empty_catalog();
    cat.avx_512.push(intr("_mm512_add_epi32", &["AVX512F"]));
    let index = build_intrinsic_name_hashmap(&cat);
    let r = check_for_intrinsics("_mm512_add_epi32(_mm512_add_epi32(a, b), c);", &index);
    assert_eq!(r.names, vec!["_mm512_add_epi32".to_string()]);
}

#[test]
fn matcher_absent_name_gives_empty_result() {
    let mut cat = empty_catalog();
    cat.avx_512.push(intr("_mm512_add_epi32", &["AVX512F"]));
    let index = build_intrinsic_name_hashmap(&cat);
    let r = check_for_intrinsics("y = add(a, b);", &index);
    assert!(r.names.is_empty());
}

#[test]
fn matcher_empty_index_gives_empty_result() {
    let index = build_intrinsic_name_hashmap(&empty_catalog());
    let r = check_for_intrinsics("_mm512_add_epi32(a, b);", &index);
    assert!(r.names.is_empty());
}

#[test]
fn index_lookup_finds_record() {
    let mut cat = empty_catalog();
    cat.sse_all.push(intr("_mm_add_ps", &["SSE"]));
    let index = build_intrinsic_name_hashmap(&cat);
    let name = "_mm_add_ps".to_string();
    let found = index.get(&name).expect("name should be indexed");
    assert_eq!(found.synopsis.cpuids, vec!["SSE".to_string()]);
    let missing = "_mm_sub_ps".to_string();
    assert!(index.get(&missing).is_none());
}

#[test]
fn index_later_category_wins_on_shared_name() {
    let mut cat = empty_catalog();
    cat.avx_512.push(intr("shared_name", &["EARLY"]));
    cat.amx.push(intr("shared_name", &["LATE"]));
    let index = build_intrinsic_name_hashmap(&cat);
    let name = "shared_name".to_string();
    let found = index.get(&name).expect("name should be indexed");
    assert_eq!(found.synopsis.cpuids, vec!["LATE".to_string()]);
}

#[test]
fn index_later_record_wins_within_category() {
    let mut cat = empty_catalog();
    let mut first = intr("shared_name", &["EARLY"]);
    first.description = "first".to_string();
    let mut second = intr("shared_name", &["LATE"]);
    second.description = "second".to_string();
    cat.other.push(first);
    cat.other.push(second);
    let index = build_intrinsic_name_hashmap(&cat);
    let name = "shared_name".to_string();
    let found = index.get(&name).expect("name should be indexed");
    assert_eq!(found.description, "second");
}

#[test]
fn shared_names_are_reported_as_duplicates() {
    let mut cat = empty_catalog();
    cat.avx_512.push(intr("shared_name", &["EARLY"]));
    cat.mmx.push(intr("unique_name", &["MMX"]));
    cat.amx.push(intr("shared_name", &["LATE"]));
    let dups = duplicate_names(&cat);
    assert_eq!(dups.names, vec!["shared_name".to_string()]);
}

#[test]
fn distinct_names_report_no_duplicates() {
    let mut cat = empty_catalog();
    cat.avx_512.push(intr("name_one", &["A"]));
    cat.amx.push(intr("name_two", &["B"]));
    let dups = duplicate_names(&cat);
    assert!(dups.names.is_empty());
}

#[test]
fn union_of_match_sets_deduplicates() {
    let per_file = vec![name_set(&["A", "B"]), name_set(&["B", "C"])];
    let r = union_results(&per_file);
    assert_eq!(as_set(&r), set_of(&["A", "B", "C"]));
}

#[test]
fn union_order_of_folding_is_irrelevant() {
    let ab = name_set(&["A", "B"]);
    let bc = name_set(&["B", "C"]);
    let one = union_results(&vec![
        name_set(&["A", "B"]),
        name_set(&["B", "C"]),
    ]);
    let two = union_results(&vec![bc, ab]);
    assert_eq!(as_set(&one), as_set(&two));
}

#[test]
fn flag_union_deduplicates() {
    let mut cat = empty_catalog();
    cat.avx_512.push(intr("intrinsic_a", &["AVX512F"]));
    cat.avx_512.push(intr("intrinsic_b", &["AVX512F", "AVX512VL"]));
    let index = build_intrinsic_name_hashmap(&cat);
    let matched = name_set(&["intrinsic_a", "intrinsic_b"]);
    let flags = collect_cpu_flags(&matched, &index);
    assert_eq!(as_set(&flags), set_of(&["AVX512F", "AVX512VL"]));
    assert_eq!(flags.names.len(), 2);
}

#[test]
fn flags_of_unknown_name_contribute_nothing() {
    let index = build_intrinsic_name_hashmap(&empty_catalog());
    let matched = name_set(&["unknown_name"]);
    let flags = collect_cpu_flags(&matched, &index);
    assert!(flags.names.is_empty());
}

#[test]
fn name_set_insert_deduplicates() {
    let mut s = NameSet::new();
    s.insert("A".to_string());
    s.insert("A".to_string());
    assert_eq!(s.names, vec!["A".to_string()]);
    assert_eq!(s.len(), 1);
}

#[test]
fn end_to_end_single_file_scan() {
    let mut cat = empty_catalog();
    cat.avx_all.push(intr("_mm256_add_ps", &["AVX"]));
    let index = build_intrinsic_name_hashmap(&cat);
    let text = "/* unused */\nfloat r = _mm256_add_ps(a,b); // adds\n";
    let clean = remove_comments(text);
    let matched = check_for_intrinsics(&clean, &index);
    let result = aggregate(&vec![matched], &index);
    assert_eq!(as_set(&result.intrinsics), set_of(&["_mm256_add_ps"]));
    assert_eq!(as_set(&result.cpu_flags), set_of(&["AVX"]));
}

#[test]
fn end_to_end_name_only_in_comment_is_not_matched() {
    let mut cat = empty_catalog();
    cat.avx_512.push(intr("_mm512_add_epi32", &["AVX512F"]));
    let index = build_intrinsic_name_hashmap(&cat);
    let clean = remove_comments("/* _mm512_add_epi32 */ other_code(); // _mm512_add_epi32");
    let matched = check_for_intrinsics(&clean, &index);
    assert!(matched.names.is_empty());
}

#[test]
fn signature_rendering_with_params() {
    let sig = Signature {
        name: "foo".to_string(),
        params: vec![
            FunctionParam { name: "a".to_string(), arg_type: "__m512i".to_string() },
            FunctionParam { name: "b".to_string(), arg_type: "__m512i".to_string() },
        ],
        rettype: "int".to_string(),
    };
    let expected = "\x1b[1m\x1b[35mint \x1b[33mfoo(\x1b[0m\x1b[1m\
                    \x1b[35m__m512i\x1b[0m\x1b[1m a, \
                    \x1b[35m__m512i\x1b[0m\x1b[1m b\
                    \x1b[33m\x1b[1m)\x1b[0m";
    assert_eq!(sig.to_string(), expected);
}

#[test]
fn signature_rendering_without_params() {
    let sig = Signature {
        name: "bar".to_string(),
        params: vec![],
        rettype: "void".to_string(),
    };
    let expected = "\x1b[1m\x1b[35mvoid \x1b[33mbar(\x1b[0m\x1b[1m\x1b[33m\x1b[1m)\x1b[0m";
    assert_eq!(sig.to_string(), expected);
}

#[test]
fn duplicate_copies_every_field() {
    let record = Intrinsic {
        instruction: "vaddps".to_string(),
        signature: Signature {
            name: "_mm256_add_ps".to_string(),
            params: vec![FunctionParam { name: "a".to_string(), arg_type: "__m256".to_string() }],
            rettype: "__m256".to_string(),
        },
        synopsis: Synopsis { cpuids: vec!["AVX".to_string()] },
        description: "adds packed floats".to_string(),
        operation: "dst := a + b".to_string(),
    };
    let copy = record.duplicate();
    assert_eq!(copy, record);
}
