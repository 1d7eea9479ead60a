use raphy::csr::CSR;
use std::sync::RwLock;

fn ring(n: usize) -> CSR<f64> {
    let el: Vec<(usize, usize)> = (0..n).map(|v| (v, (v + 1) % n)).collect();
    CSR::new(n, el)
}

#[test]
fn bfs_on_a_connected_graph_visits_every_vertex_once() {
    let n = 64;
    let mut el = Vec::new();
    for v in 0..n {
        el.push((v, (v * 2 + 1) % n));
        el.push((v, (v * 2 + 2) % n));
    }
    let csr: CSR<f64> = CSR::new(n, el);
    let order = csr.bfs_order(0);
    assert_eq!(order.len(), n);
    let mut seen = order.clone();
    seen.sort();
    assert_eq!(seen, (0..n).collect::<Vec<usize>>());
    let mut calls = Vec::new();
    csr.bfs_traversal(0, |v| calls.push(v));
    assert_eq!(calls, order);
}

#[test]
fn bfs_order_follows_levels_and_storage_order() {
    let el = vec![(0, 3), (0, 1), (1, 2), (3, 4), (2, 4), (4, 0)];
    let csr: CSR<f64> = CSR::new(6, el);
    assert_eq!(csr.bfs_order(0), vec![0, 3, 1, 4, 2]);
    assert_eq!(csr.bfs_order(2), vec![2, 4, 0, 3, 1]);
}

#[test]
fn bfs_leaves_unreachable_vertices_out() {
    let el = vec![(0, 1), (1, 0), (2, 3), (3, 2), (2, 0)];
    let csr: CSR<f64> = CSR::new(5, el);
    assert_eq!(csr.bfs_order(0), vec![0, 1]);
    assert_eq!(csr.bfs_order(2), vec![2, 3, 0, 1]);
    assert_eq!(csr.bfs_order(4), vec![4]);
}

#[test]
fn bfs_with_self_loop_and_duplicate_edges_terminates() {
    let el = vec![(0, 0), (0, 1), (0, 1), (1, 0), (1, 1)];
    let csr: CSR<f64> = CSR::new(2, el);
    assert_eq!(csr.bfs_order(0), vec![0, 1]);
    assert_eq!(csr.bfs_order(1), vec![1, 0]);
}

#[test]
fn par_scan_writes_each_vertex() {
    let el = vec![(0, 1), (0, 2), (1, 2), (2, 0)];
    let mut csr: CSR<f64> = CSR::new(3, el);
    csr.par_scan(|v, ns| (v * 10 + ns.len()) as f64);
    assert_eq!(csr.get_vtxprop(), &[2.0, 11.0, 21.0]);
    assert_eq!(csr.get_offsets(), &vec![0, 2, 3]);
}

#[test]
fn par_scan_covers_many_chunks_and_a_short_last_chunk() {
    let n = 1003;
    let mut csr = ring(n);
    csr.par_scan(|v, ns| (v + ns[0]) as f64);
    let props = csr.get_vtxprop();
    assert_eq!(props.len(), n);
    for v in 0..n {
        assert_eq!(props[v], (v + (v + 1) % n) as f64);
    }
}

#[test]
fn par_scan_on_an_empty_graph_does_nothing() {
    let mut csr: CSR<f64> = CSR::new(0, Vec::new());
    csr.par_scan(|_, _| 1.0);
    assert!(csr.get_vtxprop().is_empty());
}

#[test]
fn sequential_and_parallel_scan_give_the_same_sums() {
    let n = 40;
    let mut el = Vec::new();
    for v in 0..n {
        el.push((v, (v * 7 + 3) % n));
        el.push((v, (v * 5 + 1) % n));
        el.push(((v * 3) % n, v));
    }
    let mut csr: CSR<f64> = CSR::new(n, el);
    let weight: Vec<f64> = (0..n).map(|v| 0.5 + v as f64).collect();
    let mut by_edge = vec![0.0f64; n];
    csr.read_only_scan(|s, d| by_edge[s] += weight[d]);
    csr.par_scan(|_, ns| ns.iter().map(|d| weight[*d]).sum());
    for v in 0..n {
        assert!((csr.get_vtxprop()[v] - by_edge[v]).abs() < 1e-9);
    }
}

#[test]
fn page_rank_on_a_three_cycle_converges_to_a_third() {
    let mut csr = ring(3);
    let mut incoming: Vec<Vec<usize>> = vec![Vec::new(); 3];
    csr.read_only_scan(|s, d| incoming[d].push(s));
    for p in csr.get_mut_vtxprop().iter_mut() {
        *p = 1.0;
    }
    let d = 0.85;
    for _ in 0..150 {
        let prev: Vec<f64> = csr.get_vtxprop().to_vec();
        let degree: Vec<usize> = (0..3).map(|v| csr.neighbors_slice(v).len()).collect();
        csr.par_scan(|v, _| {
            let pulled: f64 = incoming[v].iter().map(|u| prev[*u] / degree[*u] as f64).sum();
            (1.0 - d) / 3.0 + d * pulled
        });
    }
    for v in 0..3 {
        assert!((csr.get_vtxprop()[v] - 1.0 / 3.0).abs() < 1e-6);
    }
}

#[test]
fn get_mut_vtxprop_changes_only_the_properties() {
    let mut csr = ring(4);
    csr.get_mut_vtxprop()[2] = 7.5;
    assert_eq!(csr.get_vtxprop(), &[0.0, 0.0, 7.5, 0.0]);
    assert_eq!(csr.get_offsets(), &vec![0, 1, 2, 3]);
    assert_eq!(csr.get_neighbs(), &[1, 2, 3, 0]);
}

#[test]
fn update_traversal_alternates_two_buffers() {
    let mut csr = ring(5);
    for p in csr.get_mut_vtxprop().iter_mut() {
        *p = 5.0;
    }
    csr.update_traversal(0, |old, _, _| old + 1.0);
    assert_eq!(csr.get_vtxprop(), &[5.0; 5]);
    csr.update_traversal(1, |old, _, _| old + 1.0);
    assert_eq!(csr.get_vtxprop(), &[1.0; 5]);
    for p in csr.get_mut_vtxprop().iter_mut() {
        *p = 5.0;
    }
    csr.update_traversal(2, |old, _, _| old + 1.0);
    assert_eq!(csr.get_vtxprop(), &[6.0; 5]);
    csr.update_traversal(3, |old, _, _| old + 1.0);
    assert_eq!(csr.get_vtxprop(), &[2.0; 5]);
}

#[test]
fn update_traversal_reads_the_buffer_of_the_round_before() {
    let mut csr = ring(4);
    for (v, p) in csr.get_mut_vtxprop().iter_mut().enumerate() {
        *p = v as f64;
    }
    let pull = |_: f64, ns: &[usize], all: &Vec<RwLock<f64>>| -> f64 {
        ns.iter().map(|n| *all[*n].read().unwrap()).sum()
    };
    csr.update_traversal(1, pull);
    assert_eq!(csr.get_vtxprop(), &[1.0, 2.0, 3.0, 0.0]);
    csr.update_traversal(2, pull);
    assert_eq!(csr.get_vtxprop(), &[3.0, 0.0, 1.0, 2.0]);
}

#[test]
fn scan_row_fills_one_chunk_from_its_base() {
    let csr = ring(10);
    let mut out = vec![0.0f64; 3];
    csr.scan_row(2, 3, &mut out, &|v: usize, ns: &[usize]| (v * 100 + ns[0]) as f64);
    assert_eq!(out, vec![607.0, 708.0, 809.0]);
    let mut last = vec![0.0f64; 1];
    csr.scan_row(3, 3, &mut last, &|v: usize, ns: &[usize]| (v * 100 + ns[0]) as f64);
    assert_eq!(last, vec![900.0]);
}

#[test]
fn update_vertex_reads_and_writes_the_vertex_cell() {
    let csr = ring(3);
    let before: Vec<RwLock<f64>> = vec![RwLock::new(10.0), RwLock::new(20.0), RwLock::new(30.0)];
    let after: Vec<RwLock<f64>> = vec![RwLock::new(1.0), RwLock::new(2.0), RwLock::new(3.0)];
    let f = |old: f64, ns: &[usize], all: &Vec<RwLock<f64>>| old + *all[ns[0]].read().unwrap();
    let returned = csr.update_vertex(1, &before, &after, &f);
    assert_eq!(returned, 32.0);
    assert_eq!(*after[0].read().unwrap(), 1.0);
    assert_eq!(*after[1].read().unwrap(), 32.0);
    assert_eq!(*after[2].read().unwrap(), 3.0);
    assert_eq!(*before[1].read().unwrap(), 20.0);
}

#[test]
fn update_traversal_gives_what_the_last_round_returned() {
    let el = vec![(0, 1), (0, 2), (1, 2), (2, 0)];
    let mut csr: CSR<f64> = CSR::new(3, el);
    for iters in 1..5 {
        csr.update_traversal(iters, |_, ns, all| (10 * ns.len() + all.len()) as f64);
        assert_eq!(csr.get_vtxprop(), &[23.0, 13.0, 13.0]);
        assert_eq!(csr.get_offsets(), &vec![0, 2, 3]);
    }
}
