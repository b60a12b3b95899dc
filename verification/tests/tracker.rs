use virtual_memory_sim::stattrack::StatTracker;
use virtual_memory_sim::tracker::Tracker;

#[test]
fn tracker_new() {
    let tracker = Tracker::new();
    assert_eq!(tracker.page_hits, 0);
    assert_eq!(tracker.tlb_hits, 0);
    assert_eq!(tracker.tlb_flushes, 0);
    assert_eq!(tracker.correct_memory_accesses, 0);
}

#[test]
fn tracker_equals() {
    assert_eq!(Tracker::new(), Tracker::new());
}

#[test]
fn to_string() {
    let tracker = Tracker::new();
    let str = tracker.to_string();
    assert!(!str.is_empty())
}

#[test]
fn tracker_text_is_exact() {
    let tracker = Tracker {
        page_hits: 12,
        tlb_hits: 345,
        tlb_flushes: 0,
        attempted_memory_accesses: 1000,
        correct_memory_accesses: 123456789,
    };
    let expected = "
Stats Tracked
---------------------------------
page_hits:                00000012
tlb_hits:                 00000345
tlb_flushes:              00000000
attempted_memory_acceses: 00001000
correct_memory_accesses:  123456789
";
    assert_eq!(tracker.to_string(), expected);
    assert_eq!(
        tracker.to_string(),
        format!(
            "\nStats Tracked\n---------------------------------\npage_hits:                {:08}\ntlb_hits:                 {:08}\ntlb_flushes:              {:08}\nattempted_memory_acceses: {:08}\ncorrect_memory_accesses:  {:08}\n",
            tracker.page_hits,
            tracker.tlb_hits,
            tracker.tlb_flushes,
            tracker.attempted_memory_accesses,
            tracker.correct_memory_accesses
        )
    );
}

#[test]
fn stattrack_new() {
    let tracker = StatTracker::new();
    assert_eq!(tracker.page_faults, 0);
    assert_eq!(tracker.page_hits, 0);
    assert_eq!(tracker.tlb_faults, 0);
    assert_eq!(tracker.tlb_hits, 0);
    assert_eq!(tracker.frame_hits, 0);
    assert_eq!(tracker.frame_faults, 0);
    assert_eq!(tracker.correct_memory_accesses, 0);
}

#[test]
fn stattrack_equals() {
    assert_eq!(StatTracker::new(), StatTracker::new());
}

#[test]
fn add() {
    let (mut a, mut b) = (StatTracker::new(), StatTracker::new());
    a.page_hits += 1;
    b.page_faults += 5;
    a += b;
    assert!(a.page_hits == 1);
    assert!(a.page_faults == 5);
}

#[test]
fn stattrack_sum_is_field_by_field() {
    let a = StatTracker {
        page_faults: 1,
        page_hits: 2,
        tlb_faults: 3,
        tlb_hits: 4,
        frame_hits: 5,
        frame_faults: 6,
        correct_memory_accesses: 7,
    };
    let b = StatTracker {
        page_faults: 10,
        page_hits: 20,
        tlb_faults: 30,
        tlb_hits: 40,
        frame_hits: 50,
        frame_faults: 60,
        correct_memory_accesses: 70,
    };
    let expected = StatTracker {
        page_faults: 11,
        page_hits: 22,
        tlb_faults: 33,
        tlb_hits: 44,
        frame_hits: 55,
        frame_faults: 66,
        correct_memory_accesses: 77,
    };
    assert_eq!(a + b, expected);
    assert_eq!(b + a, expected);
}

#[test]
fn stattrack_text_is_exact() {
    let mut tracker = StatTracker::new();
    tracker.tlb_hits = 54;
    tracker.frame_faults = 244;
    let expected = "
Stats Tracked
---------------------------------
page_faults:             00000000
page_hits:               00000000
tlb_faults:              00000000
tlb_hits:                00000054
frame_hits:              00000000
frame_faults:            00000244
correct_memory_accesses: 00000000
               ";
    assert_eq!(tracker.to_string(), expected);
}
