use raphy::csr::CSR;
use raphy::edges::{count_sources, group_by_source, merge_counts, place_by_source};

#[test]
fn count_sources_counts_edges_by_source() {
    let chunk = vec![(2usize, 0usize), (0, 1), (2, 2), (2, 0)];
    assert_eq!(count_sources(&chunk, 4), vec![1, 0, 3, 0]);
    let none: Vec<(usize, usize)> = Vec::new();
    assert_eq!(count_sources(&none, 2), vec![0, 0]);
}

#[test]
fn merge_counts_adds_up_the_chunks() {
    let el = vec![(0usize, 1usize), (1, 0), (1, 1), (0, 0), (1, 0)];
    let parts = vec![vec![1, 1], vec![1, 1], vec![0, 1]];
    assert_eq!(merge_counts(&el, 2, 2, &parts), vec![2, 3]);
    let empty: Vec<(usize, usize)> = Vec::new();
    assert_eq!(merge_counts(&empty, 1, 3, &Vec::new()), vec![0, 0, 0]);
}

#[test]
fn place_by_source_turns_counts_into_starts_and_fills_the_groups() {
    let el = vec![(2usize, 'a'), (0, 'b'), (2, 'c'), (1, 'd'), (0, 'e')];
    let (offsets, items) = place_by_source(3, &el, &vec![2, 1, 2], '-');
    assert_eq!(offsets, vec![0, 2, 3]);
    assert_eq!(items, vec!['b', 'e', 'd', 'a', 'c']);
}

#[test]
fn group_by_source_is_a_stable_counting_sort() {
    let el = vec![(3usize, 30u64), (1, 10), (3, 31), (0, 5), (1, 11), (3, 32)];
    let (offsets, items) = group_by_source(5, &el, 0);
    assert_eq!(offsets, vec![0, 1, 3, 3, 6]);
    assert_eq!(items, vec![5, 10, 11, 30, 31, 32]);
}

#[test]
fn building_counts_over_many_chunks_and_a_short_last_chunk() {
    for nume in [0usize, 1, 15, 16, 17, 31, 32, 33, 100, 1000, 1003] {
        let numv = 13;
        let el: Vec<(usize, usize)> = (0..nume).map(|k| ((k * 7 + k / 5) % numv, (k * 3) % numv)).collect();
        let mut expected: Vec<Vec<usize>> = vec![Vec::new(); numv];
        for (s, d) in &el {
            expected[*s].push(*d);
        }
        let csr: CSR<f64> = CSR::new(numv, el);
        assert_eq!(csr.get_e(), nume);
        let mut start = 0;
        for v in 0..numv {
            assert_eq!(csr.get_offsets()[v], start);
            assert_eq!(csr.neighbors_slice(v), expected[v].as_slice());
            start += expected[v].len();
        }
    }
}
