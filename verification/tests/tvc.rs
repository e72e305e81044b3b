use vector_clock::tvc::VectorClock;

#[test]
fn tvc_test_equals_impl() {
    assert!(VectorClock::new() == VectorClock::new());
    assert!(VectorClock::new().inc("A") == VectorClock::new().inc("A"));
    assert!(VectorClock::new().inc("A") != VectorClock::new().inc("B"));
    assert!(VectorClock::new().inc("A") != VectorClock::new().inc("A").inc("A"));
}

#[test]
fn tvc_test_clone_impl() {
    let v1 = VectorClock::new().inc("A");
    let v2 = v1.clone();
    assert!(v1 == v2);
    assert!(v1 != v2.inc("B"));
}

#[test]
fn tvc_new_is_empty() {
    assert_eq!(VectorClock::new().len(), 0);
}

#[test]
fn tvc_every_clock_equals_itself() {
    let empty = VectorClock::new();
    assert!(empty == empty);
    let c = VectorClock::new().inc("A").inc("B").inc("A");
    assert!(c == c);
}

#[test]
fn tvc_len_counts_identifiers_not_events() {
    assert_eq!(VectorClock::new().inc("A").len(), 1);
    assert_eq!(VectorClock::new().inc("A").inc("A").len(), 1);
    assert_eq!(VectorClock::new().inc("A").inc("B").len(), 2);
    assert_eq!(VectorClock::new().inc("A").inc("B").inc("A").inc("C").len(), 3);
}

#[test]
fn tvc_inc_nr_counts_in_place() {
    let mut c = VectorClock::new();
    c.inc_nr("A");
    assert!(c == VectorClock::new().inc("A"));
    assert_eq!(c.len(), 1);
    c.inc_nr("A");
    assert!(c == VectorClock::new().inc("A").inc("A"));
    assert!(c != VectorClock::new().inc("A"));
    assert_eq!(c.len(), 1);
    c.inc_nr("B");
    assert!(c == VectorClock::new().inc("A").inc("A").inc("B"));
    assert_eq!(c.len(), 2);
}

#[test]
fn tvc_any_token_is_an_identifier() {
    let c = VectorClock::new().inc("").inc("node-1").inc("n\u{f6}de").inc("");
    assert_eq!(c.len(), 3);
    assert!(c != VectorClock::new().inc("").inc("node-1").inc("n\u{f6}de"));
    assert!(VectorClock::new().inc("a") != VectorClock::new().inc("A"));
}

#[test]
fn tvc_equality_ignores_the_order_of_increments() {
    let ab = VectorClock::new().inc("A").inc("B");
    let ba = VectorClock::new().inc("B").inc("A");
    assert!(ab == ba);
    assert!(ba == ab);
    let aba = VectorClock::new().inc("A").inc("B").inc("A");
    let aab = VectorClock::new().inc("A").inc("A").inc("B");
    assert!(aba == aab);
    assert!(aba != ab);
}

#[test]
fn tvc_equality_needs_the_same_identifiers() {
    let a = VectorClock::new().inc("A");
    let ab = VectorClock::new().inc("A").inc("B");
    let ac = VectorClock::new().inc("A").inc("C");
    assert!(a != ab);
    assert!(ab != a);
    assert!(ab != ac);
    assert!(VectorClock::new() != a);
}

#[test]
fn tvc_clone_is_independent() {
    let original = VectorClock::new().inc("A");
    let mut copy = original.clone();
    copy.inc_nr("A");
    copy.inc_nr("B");
    assert_eq!(original.len(), 1);
    assert!(original == VectorClock::new().inc("A"));
    assert!(copy == VectorClock::new().inc("A").inc("A").inc("B"));
    assert!(original != copy);
}

#[test]
fn tvc_increment_changes_the_clock() {
    let c = VectorClock::new().inc("A").inc("B");
    assert!(c != c.clone().inc("A"));
    assert!(c != c.clone().inc("B"));
    assert!(c != c.clone().inc("C"));
    assert!(VectorClock::new() != VectorClock::new().inc("A"));
}

#[test]
fn tvc_clock_precedes_its_increment_on_a_tracked_identifier() {
    let c = VectorClock::new().inc("A").inc("B");
    let next = c.clone().inc("A");
    assert!(c.preceeds(&next));
    assert!(!next.preceeds(&c));
    assert!(!c.concurrent(&next));
}

#[test]
fn tvc_new_identifier_alone_does_not_make_a_clock_older() {
    let empty = VectorClock::new();
    let a = VectorClock::new().inc("A");
    assert!(!empty.preceeds(&a));
    assert!(!a.preceeds(&empty));
    assert!(empty.concurrent(&a));
    let ab = a.clone().inc("B");
    assert!(!a.preceeds(&ab));
    assert!(!ab.preceeds(&a));
}

#[test]
fn tvc_one_precedes_two() {
    let one = VectorClock::new().inc("A");
    let two = VectorClock::new().inc("A").inc("A");
    assert!(one.preceeds(&two));
    assert!(!two.preceeds(&one));
    assert!(!one.concurrent(&two));
    assert!(!two.concurrent(&one));
}

#[test]
fn tvc_precedes_looks_at_own_identifiers_only() {
    let a1 = VectorClock::new().inc("A");
    let a2b1 = VectorClock::new().inc("A").inc("A").inc("B");
    assert!(a1.preceeds(&a2b1));
    assert!(!a2b1.preceeds(&a1));
    let a1b1 = VectorClock::new().inc("A").inc("B");
    let a2 = VectorClock::new().inc("A").inc("A");
    assert!(!a1b1.preceeds(&a2));
    assert!(!a2.preceeds(&a1b1));
    assert!(a1b1.concurrent(&a2));
}

#[test]
fn tvc_one_higher_counter_rules_precedence_out() {
    let x = VectorClock::new().inc("A").inc("B").inc("B");
    let y = VectorClock::new().inc("A").inc("A").inc("B");
    assert!(!x.preceeds(&y));
    assert!(!y.preceeds(&x));
    assert!(x.concurrent(&y));
    assert!(y.concurrent(&x));
}

#[test]
fn tvc_equal_clocks_are_concurrent() {
    let x = VectorClock::new().inc("A").inc("B");
    let y = VectorClock::new().inc("B").inc("A");
    assert!(x == y);
    assert!(!x.preceeds(&y));
    assert!(!y.preceeds(&x));
    assert!(x.concurrent(&y));
    assert!(x.concurrent(&x));
    assert!(VectorClock::new().concurrent(&VectorClock::new()));
}

#[test]
fn tvc_distinct_participants_are_concurrent() {
    let a = VectorClock::new().inc("A");
    let b = VectorClock::new().inc("B");
    assert!(a.concurrent(&b));
    assert!(b.concurrent(&a));
    assert!(a != b);
    assert!(!a.preceeds(&b));
    assert!(!b.preceeds(&a));
}

#[test]
fn tvc_concurrent_means_unordered() {
    let clocks = vec![
        VectorClock::new(),
        VectorClock::new().inc("A"),
        VectorClock::new().inc("A").inc("A"),
        VectorClock::new().inc("B"),
        VectorClock::new().inc("A").inc("B"),
        VectorClock::new().inc("A").inc("B").inc("B"),
    ];
    for x in clocks.iter() {
        for y in clocks.iter() {
            assert_eq!(x.concurrent(y), !x.preceeds(y) && !y.preceeds(x));
            if x.concurrent(y) {
                assert!(!x.preceeds(y));
                assert!(!y.preceeds(x));
            }
        }
    }
}

#[test]
fn tvc_merge_keeps_the_identifiers_of_both() {
    let a = VectorClock::new().inc("A");
    let b = VectorClock::new().inc("B");
    let m = a.merge(&b);
    assert_eq!(m.len(), 2);
    assert!(m == VectorClock::new().inc("A").inc("B"));
    assert!(a == VectorClock::new().inc("A"));
    assert!(b == VectorClock::new().inc("B"));
}

#[test]
fn tvc_merge_takes_the_larger_counter() {
    let x = VectorClock::new().inc("A").inc("A").inc("B");
    let y = VectorClock::new().inc("A").inc("B").inc("B").inc("B").inc("C");
    let expected = VectorClock::new()
        .inc("A")
        .inc("A")
        .inc("B")
        .inc("B")
        .inc("B")
        .inc("C");
    assert!(x.merge(&y) == expected);
    assert!(y.merge(&x) == expected);
    assert_eq!(x.merge(&y).len(), 3);
}

#[test]
fn tvc_merge_with_the_empty_clock() {
    let empty = VectorClock::new();
    let c = VectorClock::new().inc("A").inc("B").inc("B");
    assert!(empty.merge(&c) == c);
    assert!(c.merge(&empty) == c);
    assert!(empty.merge(&empty) == empty);
    assert_eq!(empty.merge(&empty).len(), 0);
}

#[test]
fn tvc_merge_is_idempotent() {
    let c = VectorClock::new().inc("A").inc("B").inc("B");
    assert!(c.merge(&c) == c);
    assert!(c.merge(&c.clone()) == c);
}

#[test]
fn tvc_merge_is_commutative() {
    let x = VectorClock::new().inc("A").inc("A").inc("C");
    let y = VectorClock::new().inc("B").inc("C").inc("C");
    assert!(x.merge(&y) == y.merge(&x));
    assert!(x.merge(&y) == VectorClock::new().inc("A").inc("A").inc("B").inc("C").inc("C"));
}

#[test]
fn tvc_merge_is_an_upper_bound() {
    let x = VectorClock::new().inc("A").inc("B");
    let y = VectorClock::new().inc("A").inc("A").inc("B");
    let m = x.merge(&y);
    assert!(x.preceeds(&m));
    assert!(y == m);
    assert!(!m.preceeds(&x));
    assert!(!m.preceeds(&y));

    let p = VectorClock::new().inc("A").inc("A").inc("B");
    let q = VectorClock::new().inc("A").inc("B").inc("B");
    let j = p.merge(&q);
    assert!(p.preceeds(&j));
    assert!(q.preceeds(&j));
    assert!(j == VectorClock::new().inc("A").inc("A").inc("B").inc("B"));
}

#[test]
fn tvc_merge_of_disjoint_clocks_is_not_preceded_by_them() {
    let a = VectorClock::new().inc("A");
    let b = VectorClock::new().inc("B");
    let m = a.merge(&b);
    assert!(!a.preceeds(&m));
    assert!(a != m);
    assert!(!b.preceeds(&m));
    assert!(b != m);
}

#[test]
fn tvc_end_to_end() {
    let empty = VectorClock::new();
    assert_eq!(empty.len(), 0);
    let a1 = VectorClock::new().inc("A");
    assert_eq!(a1.len(), 1);
    let a2 = VectorClock::new().inc("A").inc("A");
    assert_eq!(a2.len(), 1);
    assert!(a1.preceeds(&a2));
    assert!(!a2.preceeds(&a1));
    let b1 = VectorClock::new().inc("B");
    assert!(a1.concurrent(&b1));
    assert!(a1 != b1);
    let m = a1.merge(&b1);
    assert_eq!(m.len(), 2);
    assert!(m == VectorClock::new().inc("A").inc("B"));
    assert!(m != a1);
    assert!(m != b1);
}

#[test]
fn tvc_operand_may_be_the_same_instance() {
    let c = VectorClock::new().inc("A").inc("B");
    assert!(c.merge(&c) == c);
    assert!(c == c);
    assert!(!c.preceeds(&c));
    assert!(c.concurrent(&c));
    assert_eq!(c.merge(&c).len(), 2);
}

#[test]
fn tvc_merge_gives_a_clock_of_its_own() {
    let a = VectorClock::new().inc("A");
    let b = VectorClock::new().inc("B");
    let mut m = a.merge(&b);
    m.inc_nr("A");
    assert!(a == VectorClock::new().inc("A"));
    assert!(b == VectorClock::new().inc("B"));
    assert!(m == VectorClock::new().inc("A").inc("A").inc("B"));
}

#[test]
fn tvc_agrees_with_the_plain_clock() {
    let plain_a = vector_clock::vc::VectorClock::new().inc("A").inc("A").inc("B");
    let plain_b = vector_clock::vc::VectorClock::new().inc("A").inc("C");
    let a = VectorClock::new().inc("A").inc("A").inc("B");
    let b = VectorClock::new().inc("A").inc("C");
    assert_eq!(a.len(), plain_a.len());
    assert_eq!(a.preceeds(&b), plain_a.preceeds(&plain_b));
    assert_eq!(b.preceeds(&a), plain_b.preceeds(&plain_a));
    assert_eq!(a.concurrent(&b), plain_a.concurrent(&plain_b));
    assert_eq!(a.merge(&b).len(), plain_a.merge(&plain_b).len());
    assert_eq!(a == b, plain_a == plain_b);
}

fn shared_between_threads<T: Send + Sync>(value: T) -> T {
    value
}

#[test]
fn tvc_can_be_shared_between_threads() {
    let shared = std::sync::Arc::new(shared_between_threads(VectorClock::new().inc("A")));
    let first = shared_between_threads(shared.clone());
    let second = shared_between_threads(shared.clone());
    assert!(*first == *second);
    assert!(first.merge(&second) == *shared);
    assert!(first.concurrent(&second));
    assert_eq!(second.len(), 1);
}
