use bsr::commands::waiting::{FullChoice, FullOutcome, PendingPlan, apply_full_choice, plan_compare};

fn s(v: &[&str]) -> Vec<String> {
    v.iter().map(|x| x.to_string()).collect()
}

#[test]
fn subpath_needs_two_waiting_directories() {
    match plan_compare(&s(&["/a"]), None, Some("lib")) {
        PendingPlan::SubpathNeedsTwo { count } => assert_eq!(count, 1),
        p => panic!("unexpected plan {:?}", p),
    }
    match plan_compare(&s(&["/a", "/b"]), Some("/c"), Some("lib/x")) {
        PendingPlan::CompareSubpath { dir_a, dir_b } => {
            assert_eq!(dir_a, "/a/originSource/lib/x");
            assert_eq!(dir_b, "/b/originSource/lib/x");
        }
        p => panic!("unexpected plan {:?}", p),
    }
}

#[test]
fn no_target_compares_the_waiting_pair() {
    match plan_compare(&s(&["/a", "/b"]), None, None) {
        PendingPlan::CompareWaiting { dir_a, dir_b } => {
            assert_eq!(dir_a, "/a");
            assert_eq!(dir_b, "/b");
        }
        p => panic!("unexpected plan {:?}", p),
    }
    match plan_compare(&s(&["/a"]), None, None) {
        PendingPlan::NotEnoughWaiting { count } => assert_eq!(count, 1),
        p => panic!("unexpected plan {:?}", p),
    }
}

#[test]
fn target_fills_the_waiting_area() {
    match plan_compare(&vec![], Some("/a"), None) {
        PendingPlan::Added { pending, slot, ask_to_compare } => {
            assert_eq!(pending, s(&["/a"]));
            assert_eq!(slot, 1);
            assert!(!ask_to_compare);
        }
        p => panic!("unexpected plan {:?}", p),
    }
    match plan_compare(&s(&["/a"]), Some("/b"), None) {
        PendingPlan::Added { pending, slot, ask_to_compare } => {
            assert_eq!(pending, s(&["/a", "/b"]));
            assert_eq!(slot, 2);
            assert!(ask_to_compare);
        }
        p => panic!("unexpected plan {:?}", p),
    }
}

#[test]
fn waiting_directory_is_not_added_twice() {
    assert!(matches!(plan_compare(&s(&["/a"]), Some("/a/"), None), PendingPlan::AlreadyWaiting { ask_to_compare: false }));
    assert!(matches!(plan_compare(&s(&["/a", "/b"]), Some("/b"), None), PendingPlan::AlreadyWaiting { ask_to_compare: true }));
    assert!(matches!(plan_compare(&s(&["/a", "/b"]), Some("/c"), None), PendingPlan::Full));
}

#[test]
fn full_area_choices() {
    let p = s(&["/a", "/b"]);
    match apply_full_choice(&p, "/c", FullChoice::ReplaceFirst) {
        FullOutcome::Updated(v) => assert_eq!(v, s(&["/c", "/b"])),
        o => panic!("unexpected outcome {:?}", o),
    }
    match apply_full_choice(&p, "/c", FullChoice::ReplaceSecond) {
        FullOutcome::Updated(v) => assert_eq!(v, s(&["/a", "/c"])),
        o => panic!("unexpected outcome {:?}", o),
    }
    match apply_full_choice(&p, "/c", FullChoice::ClearAndAdd) {
        FullOutcome::Cleared(v) => assert_eq!(v, s(&["/c"])),
        o => panic!("unexpected outcome {:?}", o),
    }
    match apply_full_choice(&p, "/c", FullChoice::StartComparison) {
        FullOutcome::Compare { dir_a, dir_b } => {
            assert_eq!(dir_a, "/a");
            assert_eq!(dir_b, "/b");
        }
        o => panic!("unexpected outcome {:?}", o),
    }
    assert!(matches!(apply_full_choice(&p, "/c", FullChoice::Cancel), FullOutcome::Cancelled));
}
