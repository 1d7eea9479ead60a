use rand::Rng;
use raphy::csr::{chunk_size, push_fan, CSR, NUMCHUNKS};

fn sorted(s: &[usize]) -> Vec<usize> {
    let mut v = s.to_vec();
    v.sort();
    v
}

fn naive_groups(numv: usize, el: &[(usize, usize)]) -> Vec<Vec<usize>> {
    let mut groups = vec![Vec::new(); numv];
    for (s, d) in el {
        groups[*s].push(*d);
    }
    for g in groups.iter_mut() {
        g.sort();
    }
    groups
}

fn pseudo_random_edges(numv: usize, nume: usize, seed: u64) -> Vec<(usize, usize)> {
    let mut x = seed;
    let mut el = Vec::new();
    for _ in 0..nume {
        x = x.wrapping_mul(6364136223846793005).wrapping_add(1442695040888963407);
        let s = ((x >> 33) as usize) % numv;
        x = x.wrapping_mul(6364136223846793005).wrapping_add(1442695040888963407);
        let d = ((x >> 33) as usize) % numv;
        el.push((s, d));
    }
    el
}

#[test]
fn four_edges_three_vertices() {
    let el = vec![(0, 1), (0, 2), (1, 2), (2, 0)];
    let csr: CSR<f64> = CSR::new(3, el);
    assert_eq!(csr.get_v(), 3);
    assert_eq!(csr.get_e(), 4);
    assert_eq!(csr.get_offsets(), &vec![0, 2, 3]);
    assert_eq!(csr.get_neighbs().len(), 4);
    assert_eq!(sorted(csr.neighbors_slice(0)), vec![1, 2]);
    assert_eq!(csr.neighbors_slice(1), &[2]);
    assert_eq!(csr.neighbors_slice(2), &[0]);
    assert_eq!(csr.get_vtxprop(), &[0.0, 0.0, 0.0]);
    let mut seen = Vec::new();
    csr.bfs_traversal(0, |v| seen.push(v));
    assert_eq!(seen.len(), 3);
    assert_eq!(sorted(&seen), vec![0, 1, 2]);
}

#[test]
fn offset_range_of_last_vertex_ends_at_edge_count() {
    let el = vec![(0, 1), (0, 2), (1, 2), (2, 0)];
    let csr: CSR<f64> = CSR::new(3, el);
    assert_eq!(csr.vtx_offset_range(0), (0, 2));
    assert_eq!(csr.vtx_offset_range(1), (2, 3));
    assert_eq!(csr.vtx_offset_range(2), (3, 4));
}

#[test]
fn groups_match_a_naive_grouping() {
    for seed in 1..6u64 {
        let numv = 37;
        let el = pseudo_random_edges(numv, 400, seed);
        let expected = naive_groups(numv, &el);
        let csr: CSR<f64> = CSR::new(numv, el.clone());
        assert_eq!(csr.get_e(), el.len());
        let mut start = 0;
        for v in 0..numv {
            assert_eq!(csr.get_offsets()[v], start);
            assert_eq!(sorted(csr.neighbors_slice(v)), expected[v]);
            start += expected[v].len();
        }
    }
}

#[test]
fn building_twice_gives_the_same_offsets_and_groups() {
    let numv = 50;
    let el = pseudo_random_edges(numv, 700, 99);
    let a: CSR<f64> = CSR::new(numv, el.clone());
    let b: CSR<f64> = CSR::new(numv, el);
    assert_eq!(a.get_offsets(), b.get_offsets());
    for v in 0..numv {
        assert_eq!(sorted(a.neighbors_slice(v)), sorted(b.neighbors_slice(v)));
    }
}

#[test]
fn duplicates_and_self_loops_are_kept() {
    let el = vec![(1, 1), (0, 1), (1, 1), (1, 0), (0, 1)];
    let csr: CSR<f64> = CSR::new(2, el);
    assert_eq!(csr.get_offsets(), &vec![0, 2]);
    assert_eq!(csr.neighbors_slice(0), &[1, 1]);
    assert_eq!(sorted(csr.neighbors_slice(1)), vec![0, 1, 1]);
}

#[test]
fn empty_graph_and_isolated_vertices() {
    let none: CSR<f64> = CSR::new(0, Vec::new());
    assert_eq!(none.get_v(), 0);
    assert_eq!(none.get_e(), 0);
    assert!(none.get_offsets().is_empty());
    let lonely: CSR<f64> = CSR::new(4, vec![(2, 3)]);
    assert_eq!(lonely.get_offsets(), &vec![0, 0, 0, 1]);
    assert_eq!(lonely.vtx_offset_range(0), (0, 0));
    assert_eq!(lonely.vtx_offset_range(3), (1, 1));
    assert_eq!(lonely.neighbors_slice(2), &[3]);
    assert!(lonely.neighbors_slice(3).is_empty());
}

#[test]
fn read_only_scan_visits_edges_by_vertex_in_storage_order() {
    let el = vec![(2, 0), (0, 1), (1, 2), (0, 2)];
    let csr: CSR<f64> = CSR::new(3, el);
    let mut seen = Vec::new();
    csr.read_only_scan(|s, d| seen.push((s, d)));
    let mut expected = Vec::new();
    for v in 0..3 {
        for d in csr.neighbors_slice(v) {
            expected.push((v, *d));
        }
    }
    assert_eq!(seen, expected);
    assert_eq!(seen.len(), 4);
    let mut by_pair = seen.clone();
    by_pair.sort();
    assert_eq!(by_pair, vec![(0, 1), (0, 2), (1, 2), (2, 0)]);
}

#[test]
fn chunk_size_is_a_sixteenth_or_one() {
    assert_eq!(NUMCHUNKS, 16);
    assert_eq!(chunk_size(0), 1);
    assert_eq!(chunk_size(16), 1);
    assert_eq!(chunk_size(17), 1);
    assert_eq!(chunk_size(32), 2);
    assert_eq!(chunk_size(1000), 62);
}

#[test]
fn random_edge_list_stays_in_range_and_is_grouped() {
    let el = CSR::<f64>::random_el(200, 7);
    let mut degree = vec![0usize; 200];
    let mut last = 0;
    for (s, d) in &el {
        assert!(*s < 200 && *d < 200);
        assert!(*s >= last);
        last = *s;
        degree[*s] += 1;
    }
    assert!(degree.iter().all(|n| *n < 7));
    assert!(CSR::<f64>::random_el(0, 0).is_empty());
    assert!(CSR::<f64>::random_el(5, 1).is_empty());
}

#[test]
fn test_csr_build() {
    const NUMV: usize = 1000;
    const MAXE: usize = 10;
    let el = CSR::<f64>::random_el(NUMV, MAXE);

    let mut text = String::new();
    for (v0, v1) in &el {
        text.push_str(&format!("{},{}\n", v0, v1));
    }

    let (numv2, el2) = raphy::text::el_from_text(text.as_bytes()).unwrap();
    assert_eq!(el.len(), el2.len());

    let csr: CSR<f64> = CSR::new(NUMV, el);
    let csr2: CSR<f64> = CSR::new(numv2, el2);

    let mut rng = rand::thread_rng();
    let start_v: usize = rng.gen_range(0, numv2);
    let mut a = Vec::new();
    let mut b = Vec::new();
    csr.bfs_traversal(start_v, |v| a.push(v));
    csr2.bfs_traversal(start_v, |v| b.push(v));

    let matching = a.iter().zip(b.iter()).filter(|&(a, b)| a == b).count();
    assert!(matching == a.len() && matching == b.len());
}

#[test]
fn edge_order_changes_no_offset_and_no_group() {
    let numv = 29;
    let el = pseudo_random_edges(numv, 300, 7);
    let mut reversed = el.clone();
    reversed.reverse();
    let mut interleaved: Vec<(usize, usize)> = Vec::new();
    for k in 0..el.len() / 2 {
        interleaved.push(el[el.len() - 1 - k]);
        interleaved.push(el[k]);
    }
    let a: CSR<f64> = CSR::new(numv, el);
    let b: CSR<f64> = CSR::new(numv, reversed);
    let c: CSR<f64> = CSR::new(numv, interleaved);
    assert_eq!(a.get_offsets(), b.get_offsets());
    assert_eq!(a.get_offsets(), c.get_offsets());
    for v in 0..numv {
        assert_eq!(sorted(a.neighbors_slice(v)), sorted(b.neighbors_slice(v)));
        assert_eq!(sorted(a.neighbors_slice(v)), sorted(c.neighbors_slice(v)));
    }
}

#[test]
fn groups_keep_the_order_of_the_edge_list() {
    let el = vec![(1, 4), (0, 3), (1, 2), (1, 4), (0, 0), (1, 0)];
    let csr: CSR<f64> = CSR::new(5, el);
    assert_eq!(csr.neighbors_slice(0), &[3, 0]);
    assert_eq!(csr.neighbors_slice(1), &[4, 2, 4, 0]);
    assert_eq!(csr.get_neighbs(), &[3, 0, 4, 2, 4, 0]);
}

#[test]
fn push_fan_appends_one_edge_for_each_destination() {
    let mut el = vec![(0, 9)];
    push_fan(&mut el, 4, &vec![7, 1, 7]);
    assert_eq!(el, vec![(0, 9), (4, 7), (4, 1), (4, 7)]);
    push_fan(&mut el, 5, &Vec::new());
    assert_eq!(el.len(), 4);
}
