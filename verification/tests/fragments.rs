//! Fragmentation and defragmentation.
use rosbridge::fragment::{fragment, Defragmenter, FragmentOutcome};

const SECOND: u64 = 1_000_000_000;

#[test]
fn no_fragmentation_when_small() {
    assert!(fragment("hello", 10, "x").is_none());
}

#[test]
fn fragments_and_reassembles() {
    let msg = "abcdefghij"; // 10 chars
    let frags = fragment(msg, 3, "id1").unwrap();
    assert_eq!(frags.len(), 4); // 3+3+3+1
    let mut de = Defragmenter::new(600);
    let mut result = None;
    for f in &frags {
        let v: serde_json::Value = serde_json::from_str(f).unwrap();
        let outcome = de.push(
            v["id"].as_str().unwrap(),
            v["num"].as_u64().unwrap() as usize,
            v["total"].as_u64().unwrap() as usize,
            v["data"].as_str().unwrap().to_string(),
            0,
        );
        if let FragmentOutcome::Complete(s) = outcome {
            result = Some(s);
        }
    }
    assert_eq!(result.as_deref(), Some("abcdefghij"));
}

#[test]
fn rejects_duplicate() {
    let mut de = Defragmenter::new(600);
    assert!(matches!(de.push("a", 0, 2, "x".into(), 0), FragmentOutcome::Incomplete));
    assert!(matches!(
        de.push("a", 0, 2, "x".into(), 0),
        FragmentOutcome::Invalid(_)
    ));
}

#[test]
fn sizes_count_characters() {
    assert!(fragment("äöü", 3, "x").is_none());
    let frags = fragment("äöü", 2, "x").unwrap();
    assert_eq!(frags.len(), 2);
    let v: serde_json::Value = serde_json::from_str(&frags[0]).unwrap();
    assert_eq!(v["op"], "fragment");
    assert_eq!(v["data"], "äö");
    assert!(fragment("abc", 0, "x").is_none());
}

#[test]
fn fragments_reassemble_in_any_order() {
    let mut de = Defragmenter::new(600);
    assert!(matches!(de.push("a", 2, 3, "c".into(), 0), FragmentOutcome::Incomplete));
    assert!(matches!(de.push("a", 0, 3, "a".into(), 0), FragmentOutcome::Incomplete));
    assert!(matches!(de.push("b", 0, 1, "other".into(), 0), FragmentOutcome::Complete(s) if s == "other"));
    assert!(matches!(de.push("a", 1, 3, "b".into(), 0), FragmentOutcome::Complete(s) if s == "abc"));
    // The group is gone.
    assert!(matches!(de.push("a", 1, 3, "b".into(), 0), FragmentOutcome::Incomplete));
}

#[test]
fn invalid_fragments_say_why() {
    let mut de = Defragmenter::new(600);
    assert!(matches!(de.push("a", 0, 0, "x".into(), 0), FragmentOutcome::Invalid("fragment index out of range")));
    assert!(matches!(de.push("a", 2, 2, "x".into(), 0), FragmentOutcome::Invalid("fragment index out of range")));
    de.push("a", 0, 2, "x".into(), 0);
    assert!(matches!(de.push("a", 1, 3, "x".into(), 0), FragmentOutcome::Invalid("inconsistent fragment total")));
    assert!(matches!(de.push("a", 0, 2, "x".into(), 0), FragmentOutcome::Invalid("duplicate fragment")));
}

#[test]
fn stale_groups_are_dropped() {
    let mut de = Defragmenter::new(10);
    de.push("old", 0, 2, "x".into(), 0);
    // Another fragment sweeps the old group away.
    de.push("new", 0, 2, "y".into(), 10 * SECOND);
    assert!(matches!(de.push("old", 1, 2, "z".into(), 10 * SECOND), FragmentOutcome::Incomplete));
    // Before the timeout it would have been completed.
    let mut de = Defragmenter::new(10);
    de.push("old", 0, 2, "x".into(), 0);
    de.push("new", 0, 2, "y".into(), 10 * SECOND - 1);
    assert!(matches!(de.push("old", 1, 2, "z".into(), 10 * SECOND - 1), FragmentOutcome::Complete(s) if s == "xz"));
}

#[test]
fn any_pieces_come_together_in_their_order() {
    let mut de = Defragmenter::new(600);
    let parts = ["one", "", "three", "4"];
    for order in [[2, 0, 3, 1], [3, 2, 1, 0]] {
        for (i, num) in order.iter().enumerate() {
            let out = de.push("g", *num, 4, parts[*num].to_string(), i as u64);
            match out {
                FragmentOutcome::Incomplete => assert!(i < 3),
                FragmentOutcome::Complete(s) => {
                    assert_eq!(i, 3);
                    assert_eq!(s, "onethree4");
                }
                FragmentOutcome::Invalid(why) => panic!("{why}"),
            }
        }
    }
}
