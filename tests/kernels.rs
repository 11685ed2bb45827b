use optimize_examples::byte_fill::{do_init, do_with_buffer};
use optimize_examples::pair_sum::{
    do_loop_over_hashmap, do_loop_over_vector, init_hashmap, init_vector,
};
use optimize_examples::vec_init::{init_with_macro, init_with_resize};
use optimize_examples::vector_add::{add_vector, checksum, chunked_add_vector, CHUNK_SIZE};

fn ramp(n: usize) -> Vec<i64> {
    (0..n).map(|i| i as i64).collect()
}

#[test]
fn direct_and_chunked_sums_agree_on_a_range() {
    let sz = 64 * 1024;
    let v0 = ramp(sz);
    let v1 = ramp(sz);
    let direct = add_vector(&v0, &v1);
    let chunked = chunked_add_vector(&v0, &v1);
    assert_eq!(direct, chunked);
    assert_eq!(checksum(&direct), 4_294_901_760);
    assert_eq!(checksum(&chunked), 4_294_901_760);
}

#[test]
fn chunked_add_covers_the_remainder() {
    let n = 2 * CHUNK_SIZE + 37;
    let v0 = ramp(n);
    let v1: Vec<i64> = (0..n).map(|i| -3 * i as i64 + 1).collect();
    let chunked = chunked_add_vector(&v0, &v1);
    let expected: Vec<i64> = (0..n).map(|i| -2 * i as i64 + 1).collect();
    assert_eq!(chunked, expected);
    assert_eq!(add_vector(&v0, &v1), expected);
}

#[test]
fn add_vector_stops_at_the_shorter_input() {
    assert_eq!(add_vector(&vec![1, 2, 3], &vec![10, 20]), vec![11, 22]);
    assert_eq!(add_vector(&vec![], &vec![5]), Vec::<i64>::new());
}

#[test]
fn adding_empty_vectors_gives_empty() {
    assert_eq!(chunked_add_vector(&vec![], &vec![]), Vec::<i64>::new());
    assert_eq!(checksum(&vec![]), 0);
}

#[test]
fn checksum_does_not_overflow_i64_sums() {
    let v = vec![i64::MAX, i64::MAX, i64::MIN];
    assert_eq!(checksum(&v), i64::MAX as i128 - 1);
}

#[test]
fn macro_and_resize_build_the_same_vectors() {
    let a = init_with_macro(10000, 0, 100);
    let b = init_with_resize(10000, 0, 100);
    assert_eq!(a.len(), 100);
    assert!(a.iter().all(|v| v.len() == 10000 && v.iter().all(|x| *x == 0)));
    assert_eq!(a, b);
    let c = init_with_macro(3, 7, 2);
    assert_eq!(c, vec![vec![7, 7, 7], vec![7, 7, 7]]);
    assert_eq!(init_with_resize(3, 7, 2), c);
}

#[test]
fn init_with_zero_sizes() {
    assert_eq!(init_with_macro(5, 1, 0), Vec::<Vec<u8>>::new());
    assert_eq!(init_with_resize(0, 1, 2), vec![Vec::<u8>::new(), Vec::new()]);
}

#[test]
fn init_vector_holds_doubled_pairs() {
    assert_eq!(init_vector(4), vec![(0, 0), (1, 2), (2, 4), (3, 6)]);
    assert!(init_vector(0).is_empty());
}

#[test]
fn init_hashmap_holds_doubled_values() {
    let m = init_hashmap(4);
    assert_eq!(m.len(), 4);
    for k in 0..4usize {
        assert_eq!(m.get(&k), Some(&(2 * k)));
    }
    assert_eq!(m.get(&4), None);
}

#[test]
fn vector_and_hashmap_loops_agree() {
    let num_tasks = 30;
    let num_elems = 1000;
    let vectors: Vec<_> = (0..num_tasks).map(|_| init_vector(num_elems)).collect();
    let maps: Vec<_> = (0..num_tasks).map(|_| init_hashmap(num_elems)).collect();
    let expected = num_tasks * num_elems * (num_elems - 1);
    assert_eq!(do_loop_over_vector(vectors), expected);
    assert_eq!(do_loop_over_hashmap(maps), expected);
}

#[test]
fn loops_over_no_tables_give_zero() {
    assert_eq!(do_loop_over_vector(vec![]), 0);
    assert_eq!(do_loop_over_hashmap(vec![]), 0);
    assert_eq!(do_loop_over_vector(vec![vec![]]), 0);
}

#[test]
fn counting_bytes_wrap_after_255() {
    let mut buffer = vec![9u8];
    do_with_buffer(&mut buffer, 300);
    assert_eq!(buffer.len(), 301);
    assert_eq!(buffer[0], 9);
    assert_eq!(buffer[1], 0);
    assert_eq!(buffer[256], 255);
    assert_eq!(buffer[257], 0);
    assert_eq!(buffer[300], 43);
    let mut other = vec![9u8];
    do_init(&mut other, 300);
    assert_eq!(buffer, other);
}
