use memcache::router::{default_hash_function, group, pick};

#[test]
fn default_hash_matches_fnv1a_vectors() {
    assert_eq!(default_hash_function(""), 0xcbf29ce484222325);
    assert_eq!(default_hash_function("a"), 0xaf63dc4c8601ec8c);
    assert_eq!(default_hash_function("foobar"), 0x85944171f73967e8);
}

#[test]
fn default_hash_is_stable_across_calls() {
    assert_eq!(default_hash_function("foo"), default_hash_function("foo"));
    assert_eq!(default_hash_function("foo"), 0xdcb27518fed9d577);
}

#[test]
fn pick_is_hash_modulo_servers() {
    assert_eq!(pick(10, 3), 1);
    assert_eq!(pick(0, 5), 0);
    assert_eq!(pick(u64::MAX, 2), 1);
    assert_eq!(pick(12345, 1), 0);
}

#[test]
fn group_lists_positions_per_server_in_order() {
    let hashes = vec![5u64, 6, 7, 8, 10];
    let groups = group(&hashes, 2);
    assert_eq!(groups, vec![vec![1, 3, 4], vec![0, 2]]);
}

#[test]
fn group_of_an_empty_batch_is_empty_per_server() {
    let groups = group(&[], 3);
    assert_eq!(groups, vec![Vec::<usize>::new(), vec![], vec![]]);
}

#[test]
fn group_is_a_permutation_of_the_batch() {
    let keys = ["foo", "bar", "baz", "foo", "qux", "quux"];
    let hashes: Vec<u64> = keys.iter().map(|k| default_hash_function(k)).collect();
    let groups = group(&hashes, 3);
    let mut all: Vec<usize> = groups.concat();
    all.sort();
    assert_eq!(all, vec![0, 1, 2, 3, 4, 5]);
    for (s, g) in groups.iter().enumerate() {
        for &i in g {
            assert_eq!(pick(hashes[i], 3), s);
        }
    }
}

#[test]
fn a_key_keeps_its_server_whatever_else_is_in_the_batch() {
    let h = default_hash_function("stable");
    let alone = group(&[h], 4);
    let crowded = group(&[1, 2, h, 3, 4, 5], 4);
    let s = pick(h, 4);
    assert!(alone[s].contains(&0));
    assert!(crowded[s].contains(&2));
}
