use cornerstore::expiry::ExpiryIndex;
use cornerstore::key::HiddenKey;
use std::time::{Duration, Instant};

fn after(origin: Instant, nanos: u64) -> Instant {
    origin + Duration::from_nanos(nanos)
}

fn before(origin: Instant, nanos: u64) -> Instant {
    origin - Duration::from_nanos(nanos)
}

#[test]
fn new_index_has_nothing_due() {
    let t0 = Instant::now();
    let index = ExpiryIndex::new(t0);
    assert!(index.due_before(t0).is_empty());
    assert!(index.due_before(after(t0, 1_000_000_000)).is_empty());
    assert!(index.due_before(before(t0, 1_000_000_000)).is_empty());
}

#[test]
fn due_before_is_ordered_and_stops_at_the_limit() {
    let t0 = Instant::now();
    let mut index = ExpiryIndex::new(t0);
    index.register(after(t0, 30), HiddenKey(3));
    index.register(after(t0, 10), HiddenKey(1));
    index.register(after(t0, 20), HiddenKey(2));
    index.register(after(t0, 40), HiddenKey(4));

    let due = index.due_before(after(t0, 30));
    assert_eq!(due, vec![(after(t0, 10), vec![HiddenKey(1)]), (after(t0, 20), vec![HiddenKey(2)])]);

    let due = index.due_before(after(t0, 31));
    assert_eq!(
        due,
        vec![
            (after(t0, 10), vec![HiddenKey(1)]),
            (after(t0, 20), vec![HiddenKey(2)]),
            (after(t0, 30), vec![HiddenKey(3)])
        ]
    );

    assert!(index.due_before(after(t0, 10)).is_empty());
    assert!(index.due_before(t0).is_empty());
    assert_eq!(index.due_before(after(t0, 1_000)).len(), 4);
}

#[test]
fn due_before_follows_time_on_both_sides_of_the_origin() {
    let t0 = Instant::now();
    let mut index = ExpiryIndex::new(t0);
    index.register(after(t0, 10), HiddenKey(4));
    index.register(before(t0, 10), HiddenKey(2));
    index.register(t0, HiddenKey(3));
    index.register(before(t0, 20), HiddenKey(1));

    assert!(index.due_before(before(t0, 20)).is_empty());
    assert_eq!(index.due_before(before(t0, 19)), vec![(before(t0, 20), vec![HiddenKey(1)])]);
    assert_eq!(index.due_before(before(t0, 10)), vec![(before(t0, 20), vec![HiddenKey(1)])]);
    assert_eq!(
        index.due_before(t0),
        vec![(before(t0, 20), vec![HiddenKey(1)]), (before(t0, 10), vec![HiddenKey(2)])]
    );
    assert_eq!(
        index.due_before(after(t0, 1)),
        vec![
            (before(t0, 20), vec![HiddenKey(1)]),
            (before(t0, 10), vec![HiddenKey(2)]),
            (t0, vec![HiddenKey(3)])
        ]
    );
    assert_eq!(
        index.due_before(after(t0, 11)),
        vec![
            (before(t0, 20), vec![HiddenKey(1)]),
            (before(t0, 10), vec![HiddenKey(2)]),
            (t0, vec![HiddenKey(3)]),
            (after(t0, 10), vec![HiddenKey(4)])
        ]
    );
}

#[test]
fn due_before_leaves_the_index_as_it_is() {
    let t0 = Instant::now();
    let mut index = ExpiryIndex::new(t0);
    index.register(after(t0, 10), HiddenKey(1));
    assert_eq!(index.due_before(after(t0, 11)), vec![(after(t0, 10), vec![HiddenKey(1)])]);
    assert_eq!(index.due_before(after(t0, 11)), vec![(after(t0, 10), vec![HiddenKey(1)])]);
}

#[test]
fn register_appends_to_the_bucket_of_its_instant() {
    let t0 = Instant::now();
    let mut index = ExpiryIndex::new(t0);
    index.register(after(t0, 10), HiddenKey(1));
    index.register(after(t0, 10), HiddenKey(2));
    index.register(after(t0, 10), HiddenKey(3));
    assert_eq!(
        index.due_before(after(t0, 11)),
        vec![(after(t0, 10), vec![HiddenKey(1), HiddenKey(2), HiddenKey(3)])]
    );
}

#[test]
fn register_lists_an_identifier_once() {
    let t0 = Instant::now();
    let mut index = ExpiryIndex::new(t0);
    index.register(after(t0, 10), HiddenKey(1));
    index.register(after(t0, 10), HiddenKey(2));
    index.register(after(t0, 10), HiddenKey(1));
    index.register(after(t0, 10), HiddenKey(2));
    index.register(before(t0, 10), HiddenKey(1));
    index.register(before(t0, 10), HiddenKey(1));
    assert_eq!(
        index.due_before(after(t0, 11)),
        vec![
            (before(t0, 10), vec![HiddenKey(1)]),
            (after(t0, 10), vec![HiddenKey(1), HiddenKey(2)])
        ]
    );
    index.unregister(after(t0, 10), HiddenKey(1));
    assert_eq!(
        index.due_before(after(t0, 11)),
        vec![(before(t0, 10), vec![HiddenKey(1)]), (after(t0, 10), vec![HiddenKey(2)])]
    );
}

#[test]
fn unregister_takes_one_identifier_off_one_bucket() {
    let t0 = Instant::now();
    let mut index = ExpiryIndex::new(t0);
    index.register(after(t0, 10), HiddenKey(1));
    index.register(after(t0, 10), HiddenKey(2));
    index.register(after(t0, 20), HiddenKey(1));
    index.unregister(after(t0, 10), HiddenKey(1));
    assert_eq!(
        index.due_before(after(t0, 21)),
        vec![(after(t0, 10), vec![HiddenKey(2)]), (after(t0, 20), vec![HiddenKey(1)])]
    );
}

#[test]
fn unregister_keeps_the_order_of_the_others() {
    let t0 = Instant::now();
    let mut index = ExpiryIndex::new(t0);
    index.register(after(t0, 10), HiddenKey(1));
    index.register(after(t0, 10), HiddenKey(2));
    index.register(after(t0, 10), HiddenKey(3));
    index.unregister(after(t0, 10), HiddenKey(2));
    assert_eq!(
        index.due_before(after(t0, 11)),
        vec![(after(t0, 10), vec![HiddenKey(1), HiddenKey(3)])]
    );
}

#[test]
fn unregister_drops_a_bucket_that_it_empties() {
    let t0 = Instant::now();
    let mut index = ExpiryIndex::new(t0);
    index.register(after(t0, 10), HiddenKey(1));
    index.register(after(t0, 20), HiddenKey(2));
    index.register(before(t0, 5), HiddenKey(3));
    index.unregister(after(t0, 10), HiddenKey(1));
    index.unregister(before(t0, 5), HiddenKey(3));
    assert_eq!(index.due_before(after(t0, 21)), vec![(after(t0, 20), vec![HiddenKey(2)])]);
}

#[test]
fn unregister_of_what_is_not_listed_changes_nothing() {
    let t0 = Instant::now();
    let mut index = ExpiryIndex::new(t0);
    index.register(after(t0, 10), HiddenKey(1));
    index.unregister(after(t0, 10), HiddenKey(2));
    index.unregister(after(t0, 11), HiddenKey(1));
    index.unregister(before(t0, 10), HiddenKey(1));
    assert_eq!(index.due_before(after(t0, 21)), vec![(after(t0, 10), vec![HiddenKey(1)])]);
}

#[test]
fn discard_drops_the_whole_bucket() {
    let t0 = Instant::now();
    let mut index = ExpiryIndex::new(t0);
    index.register(after(t0, 10), HiddenKey(1));
    index.register(after(t0, 10), HiddenKey(2));
    index.register(after(t0, 20), HiddenKey(3));
    index.register(before(t0, 10), HiddenKey(4));
    index.discard(after(t0, 10));
    assert_eq!(
        index.due_before(after(t0, 21)),
        vec![(before(t0, 10), vec![HiddenKey(4)]), (after(t0, 20), vec![HiddenKey(3)])]
    );
    index.discard(after(t0, 10));
    index.discard(after(t0, 15));
    index.discard(before(t0, 10));
    assert_eq!(index.due_before(after(t0, 21)), vec![(after(t0, 20), vec![HiddenKey(3)])]);
}

#[test]
fn instants_far_from_the_origin_keep_their_order() {
    let t0 = Instant::now();
    let far = Duration::new(3_000_000, 0);
    let mut index = ExpiryIndex::new(t0);
    index.register(t0 + far, HiddenKey(2));
    index.register(t0, HiddenKey(1));
    index.register(t0 + far + far, HiddenKey(3));
    assert_eq!(index.due_before(t0 + far), vec![(t0, vec![HiddenKey(1)])]);
    assert_eq!(
        index.due_before(t0 + far + far),
        vec![(t0, vec![HiddenKey(1)]), (t0 + far, vec![HiddenKey(2)])]
    );
}
