use atom_cell::Atom;
use std::collections::HashMap;

#[test]
fn derefs() {
    let atom = Atom::new(5);
    assert_eq!(atom.deref(), 5);
}

#[test]
fn resets() {
    let mut atom = Atom::new(5);
    assert_eq!(atom.reset(10), 10);
}

#[test]
fn swaps() {
    let mut atom = Atom::new(5);
    assert_eq!(atom.swap(&|previous| previous + 1), 6);
}

#[test]
fn reset_round_trip() {
    let mut atom = Atom::new(5);
    assert_eq!(atom.reset(10), 10);
    assert_eq!(atom.deref(), 10);
}

#[test]
fn read_is_idempotent() {
    let atom = Atom::new(vec![1u64, 2, 3]);
    let first = atom.deref();
    let second = atom.deref();
    let third = atom.deref();
    assert_eq!(first, vec![1u64, 2, 3]);
    assert_eq!(first, second);
    assert_eq!(second, third);
}

#[test]
fn counter_loses_no_update() {
    let mut atom = Atom::new(0u64);
    let mut returned: Vec<u64> = vec![];
    for _ in 0..50 {
        returned.push(atom.swap(&|count| count + 1));
    }
    assert_eq!(atom.deref(), 50);
    let expected: Vec<u64> = (1..=50).collect();
    assert_eq!(returned, expected);
    assert_eq!(returned.iter().sum::<u64>(), 1275);
}

#[test]
fn map_loses_no_insert() {
    let empty: HashMap<u64, String> = HashMap::new();
    let mut atom = Atom::new(empty);
    for key in 0..10u64 {
        let insert_one = move |snapshot: &HashMap<u64, String>| {
            let mut grown = snapshot.clone();
            grown.insert(key, String::from("hi"));
            grown
        };
        atom.swap(&insert_one);
    }
    let all = atom.deref();
    assert_eq!(all.len(), 10);
    for key in 0..10u64 {
        assert_eq!(all.get(&key), Some(&String::from("hi")));
    }
}

#[test]
fn reset_supersedes_earlier_swaps() {
    let mut atom = Atom::new(0);
    atom.swap(&|count| count + 1);
    atom.swap(&|count| count + 1);
    assert_eq!(atom.reset(100), 100);
    assert_eq!(atom.deref(), 100);
}

#[test]
fn swap_supersedes_earlier_reset() {
    let mut atom = Atom::new(0);
    atom.reset(100);
    assert_eq!(atom.swap(&|count| count + 1), 101);
    assert_eq!(atom.deref(), 101);
}

#[test]
fn grows_a_vec_step_by_step() {
    let m: Vec<usize> = vec![];
    let mut results_vec = Atom::new(m);
    let n = 500;
    for _ in 0..n {
        results_vec.swap(&|v: &Vec<usize>| {
            let mut nv = v.clone();
            let last = nv.last().unwrap_or(&0);
            nv.push(last + 1);
            nv
        });
    }
    assert_eq!(results_vec.deref(), (1..501).collect::<Vec<usize>>());
}

#[test]
fn discarding_swap_still_updates() {
    let mut atom = Atom::new(5);
    atom.swap_discard(&|previous| previous + 1);
    assert_eq!(atom.deref(), 6);
}
