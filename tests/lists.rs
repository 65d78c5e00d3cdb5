use majin::first;
use majin::fsm::FSM;
use majin::linked_lists;

#[test]
fn first_basics() {
    let mut list = first::List::new();

    assert_eq!(list.pop(), None);

    list.push(1);
    list.push(2);
    list.push(3);

    assert_eq!(list.pop(), Some(3));
    assert_eq!(list.pop(), Some(2));

    list.push(4);
    list.push(5);

    assert_eq!(list.pop(), Some(5));
    assert_eq!(list.pop(), Some(4));

    assert_eq!(list.pop(), Some(1));
    assert_eq!(list.pop(), None);

    let mut list = linked_lists::first::List::new();

    assert_eq!(list.pop(), None);

    list.push(1);
    list.push(2);
    list.push(3);

    assert_eq!(list.pop(), Some(3));
    assert_eq!(list.pop(), Some(2));

    list.push(4);
    list.push(5);

    assert_eq!(list.pop(), Some(5));
    assert_eq!(list.pop(), Some(4));
    assert_eq!(list.pop(), Some(1));

    assert_eq!(list.pop(), None);
}

#[test]
fn second_basics() {
    let mut list = linked_lists::second::List::new();

    assert_eq!(list.pop(), None);

    list.push(1);
    list.push(2);
    list.push(3);

    assert_eq!(list.pop(), Some(3));
    assert_eq!(list.pop(), Some(2));

    list.push(4);
    list.push(5);

    assert_eq!(list.pop(), Some(5));
    assert_eq!(list.pop(), Some(4));
    assert_eq!(list.pop(), Some(1));

    assert_eq!(list.pop(), None);
}

#[test]
fn second_peek() {
    let mut list = linked_lists::second::List::new();
    assert_eq!(list.peek(), None);
    list.push(String::from("a"));
    list.push(String::from("b"));
    assert_eq!(list.peek(), Some(&String::from("b")));
    assert_eq!(list.pop(), Some(String::from("b")));
    assert_eq!(list.peek(), Some(&String::from("a")));
}

#[test]
fn long_lists_drop_without_recursion() {
    let mut a = first::List::new();
    let mut b = linked_lists::first::List::new();
    let mut c = linked_lists::second::List::new();
    for i in 0..200_000 {
        a.push(i);
        b.push(i);
        c.push(i);
    }
    assert_eq!(a.pop(), Some(199_999));
    assert_eq!(c.peek(), Some(&199_999));
}

#[test]
fn it_works() {
    assert_eq!(2 + 2, 4);
}

#[test]
fn fsm_constructs() {
    let inputs = vec![2, 4, 6];
    let states = vec![1, 3, 5];
    let initial_state = 1;
    let transition_table = vec![
        vec![0, 2, 1],
        vec![2, 1, 0],
        vec![1, 2, 0],
    ];

    let fsm = FSM::new(inputs, states, initial_state, transition_table, vec![2]);
    assert_eq!(2 + 2, 4);
    assert_eq!(fsm.initial(), 1);
    assert_eq!(fsm.transition(0, 1), 2);
    assert_eq!(fsm.transition(1, 0), 2);
    assert_eq!(fsm.transition(2, 2), 0);
    assert!(fsm.is_final(2));
    assert!(!fsm.is_final(1));
}
