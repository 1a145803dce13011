use font_fallback::defs::{insert_back, insert_front, FontDefs, FontEntry};
use font_fallback::engine::{install_extending, install_replacing};
use font_fallback::loader::Candidate;

fn cand(key: &str, family: &str, bytes: Option<Vec<u8>>) -> Candidate {
    Candidate { key: key.to_string(), family: family.to_string(), bytes }
}

fn entry(key: &str, bytes: Vec<u8>) -> FontEntry {
    FontEntry { key: key.to_string(), bytes }
}

fn keys_of(defs: &FontDefs) -> Vec<String> {
    defs.font_data.iter().map(|e| e.key.clone()).collect()
}

#[test]
fn replace_order_preserved() {
    let cands = vec![
        cand("a", "fam-a", Some(vec![1])),
        cand("b", "fam-b", Some(vec![2])),
        cand("c", "fam-c", Some(vec![3])),
    ];
    let mut defs = FontDefs::new();
    let (commit, names) = install_replacing(&mut defs, cands);
    assert!(commit);
    assert_eq!(names, vec!["fam-a", "fam-b", "fam-c"]);
    assert_eq!(defs.proportional, vec!["a", "b", "c"]);
    assert_eq!(defs.monospace, vec!["a", "b", "c"]);
    assert_eq!(keys_of(&defs), vec!["a", "b", "c"]);
}

#[test]
fn replace_idempotent() {
    let make = || {
        vec![
            cand("a", "fam-a", Some(vec![1])),
            cand("b", "fam-b", Some(vec![2])),
        ]
    };
    let mut defs = FontDefs::new();
    let (commit1, names1) = install_replacing(&mut defs, make());
    let once = (defs.font_data.len(), keys_of(&defs), defs.proportional.clone(), defs.monospace.clone());
    let (commit2, names2) = install_replacing(&mut defs, make());
    assert!(commit1 && commit2);
    assert_eq!(names1, names2);
    let twice = (defs.font_data.len(), keys_of(&defs), defs.proportional.clone(), defs.monospace.clone());
    assert_eq!(once, twice);
    // no duplicate keys in any role sequence
    for (i, k) in defs.proportional.iter().enumerate() {
        assert!(!defs.proportional[i + 1..].contains(k));
    }
    for (i, k) in defs.monospace.iter().enumerate() {
        assert!(!defs.monospace[i + 1..].contains(k));
    }
}

#[test]
fn replace_duplicate_key_first_occurrence_wins() {
    let cands = vec![
        cand("a", "fam-a", Some(vec![1])),
        cand("b", "fam-b", Some(vec![2])),
        cand("a", "fam-a-again", Some(vec![9])),
    ];
    let mut defs = FontDefs::new();
    let (commit, names) = install_replacing(&mut defs, cands);
    assert!(commit);
    // every loaded candidate's family is reported, duplicates included
    assert_eq!(names, vec!["fam-a", "fam-b", "fam-a-again"]);
    // but the chains and the data keep the first occurrence only
    assert_eq!(defs.proportional, vec!["a", "b"]);
    assert_eq!(defs.monospace, vec!["a", "b"]);
    // re-inserting the same key is a no-op for data: the first bytes stay
    assert_eq!(defs.font_data.len(), 2);
    assert_eq!(defs.font_data[0].key, "a");
    assert_eq!(defs.font_data[0].bytes, vec![1]);
}

#[test]
fn replace_total_failure_is_no_op() {
    let mut defs = FontDefs::new();
    defs.font_data.push(entry("x", vec![0]));
    defs.proportional.push("x".to_string());
    defs.monospace.push("x".to_string());
    let cands = vec![cand("a", "fam-a", None), cand("b", "fam-b", None)];
    let (commit, names) = install_replacing(&mut defs, cands);
    assert!(!commit);
    assert!(names.is_empty());
    assert_eq!(keys_of(&defs), vec!["x"]);
    assert_eq!(defs.font_data[0].bytes, vec![0]);
    assert_eq!(defs.proportional, vec!["x"]);
    assert_eq!(defs.monospace, vec!["x"]);
}

#[test]
fn replace_empty_candidate_list_is_no_op() {
    let mut defs = FontDefs::new();
    let (commit, names) = install_replacing(&mut defs, Vec::new());
    assert!(!commit);
    assert!(names.is_empty());
    assert!(defs.font_data.is_empty());
    assert!(defs.proportional.is_empty());
    assert!(defs.monospace.is_empty());
}

#[test]
fn extend_appends_behind_existing() {
    let mut defs = FontDefs::new();
    defs.font_data.push(entry("x", vec![0]));
    defs.proportional.push("x".to_string());
    defs.monospace.push("x".to_string());
    let cands = vec![
        cand("a", "fam-a", Some(vec![1])),
        cand("b", "fam-b", Some(vec![2])),
    ];
    let (commit, names) = install_extending(&mut defs, cands);
    assert!(commit);
    assert_eq!(names, vec!["fam-a", "fam-b"]);
    assert_eq!(defs.proportional, vec!["x", "a", "b"]);
    assert_eq!(defs.monospace, vec!["x", "a", "b"]);
    assert_eq!(keys_of(&defs), vec!["x", "a", "b"]);
}

#[test]
fn extend_skips_preexisting_key() {
    let mut defs = FontDefs::new();
    defs.font_data.push(entry("x", vec![0]));
    defs.proportional.push("x".to_string());
    defs.monospace.push("x".to_string());
    // the caller asks before re-reading bytes of an installed candidate
    assert!(defs.contains_key(&"x".to_string()));
    assert!(!defs.contains_key(&"a".to_string()));
    let cands = vec![
        cand("x", "fam-x-again", Some(vec![9])),
        cand("a", "fam-a", Some(vec![1])),
    ];
    let (commit, names) = install_extending(&mut defs, cands);
    assert!(commit);
    assert_eq!(names, vec!["fam-a"]);
    assert_eq!(defs.proportional, vec!["x", "a"]);
    assert_eq!(defs.monospace, vec!["x", "a"]);
    assert_eq!(defs.font_data[0].bytes, vec![0]);
    assert_eq!(defs.font_data.len(), 2);
}

#[test]
fn extend_nothing_new_is_no_op_and_no_commit() {
    let mut defs = FontDefs::new();
    defs.font_data.push(entry("x", vec![0]));
    defs.proportional.push("x".to_string());
    defs.monospace.push("x".to_string());
    let cands = vec![cand("x", "fam-x", Some(vec![9])), cand("a", "fam-a", None)];
    let (commit, names) = install_extending(&mut defs, cands);
    assert!(!commit);
    assert!(names.is_empty());
    assert_eq!(keys_of(&defs), vec!["x"]);
    assert_eq!(defs.proportional, vec!["x"]);
    assert_eq!(defs.monospace, vec!["x"]);
}

#[test]
fn extend_duplicate_key_within_batch() {
    let mut defs = FontDefs::new();
    let cands = vec![
        cand("a", "fam-a", Some(vec![1])),
        cand("a", "fam-a-again", Some(vec![9])),
        cand("b", "fam-b", Some(vec![2])),
    ];
    let (commit, names) = install_extending(&mut defs, cands);
    assert!(commit);
    assert_eq!(names, vec!["fam-a", "fam-b"]);
    assert_eq!(defs.proportional, vec!["a", "b"]);
    assert_eq!(defs.font_data[0].bytes, vec![1]);
}

#[test]
fn chain_insert_helpers_deduplicate() {
    let mut list = vec!["b".to_string()];
    insert_front(&mut list, "a".to_string());
    assert_eq!(list, vec!["a", "b"]);
    insert_front(&mut list, "b".to_string());
    assert_eq!(list, vec!["a", "b"]);
    insert_back(&mut list, "c".to_string());
    assert_eq!(list, vec!["a", "b", "c"]);
    insert_back(&mut list, "a".to_string());
    assert_eq!(list, vec!["a", "b", "c"]);
}

#[test]
fn well_formedness_check() {
    let defs = FontDefs::new();
    assert!(defs.is_well_formed());

    let mut installed = FontDefs::new();
    let cands = vec![cand("a", "fam-a", Some(vec![1])), cand("b", "fam-b", Some(vec![2]))];
    install_replacing(&mut installed, cands);
    assert!(installed.is_well_formed());

    let mut dangling = FontDefs::new();
    dangling.proportional.push("missing-key".to_string());
    assert!(!dangling.is_well_formed());

    let mut dup_store = FontDefs::new();
    dup_store.font_data.push(entry("a", vec![1]));
    dup_store.font_data.push(entry("a", vec![2]));
    assert!(!dup_store.is_well_formed());

    let mut dup_chain = FontDefs::new();
    dup_chain.font_data.push(entry("a", vec![1]));
    dup_chain.monospace.push("a".to_string());
    dup_chain.monospace.push("a".to_string());
    assert!(!dup_chain.is_well_formed());
}

#[test]
fn extend_failed_load_then_same_key_succeeds() {
    let mut defs = FontDefs::new();
    let cands = vec![cand("a", "fam-a", None), cand("a", "fam-a", Some(vec![1]))];
    let (commit, names) = install_extending(&mut defs, cands);
    assert!(commit);
    assert_eq!(names, vec!["fam-a"]);
    assert_eq!(defs.proportional, vec!["a"]);
    assert_eq!(defs.font_data[0].bytes, vec![1]);
}
