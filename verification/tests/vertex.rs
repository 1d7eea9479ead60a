use raphy::adjacency::Graph;
use raphy::vertex::Vertex;

#[test]
fn vertex_init_fills_an_empty_slot_only() {
    let mut v: Vertex<u64> = Vertex::Empty;
    v.init(3, 40);
    assert!(matches!(&v, Vertex::V { id: 3, val: 40, neigh } if neigh.is_empty()));
    v.init(9, 90);
    assert!(matches!(&v, Vertex::V { id: 3, val: 40, neigh } if neigh.is_empty()));
}

#[test]
fn vertex_add_neigh_appends_in_order() {
    let mut v: Vertex<u64> = Vertex::Empty;
    v.add_neigh(5);
    assert!(matches!(&v, Vertex::Empty));
    v.init(1, 10);
    v.add_neigh(5);
    v.add_neigh(2);
    v.add_neigh(5);
    match &v {
        Vertex::V { neigh, .. } => {
            let ids: Vec<u64> = neigh.iter().map(|b| **b).collect();
            assert_eq!(ids, vec![5, 2, 5]);
        }
        Vertex::Empty => panic!("vertex is empty"),
    }
}

#[test]
fn vertex_set_val_and_get_val() {
    let mut v: Vertex<u64> = Vertex::Empty;
    v.set_val(7);
    assert_eq!(v.get_val(), None);
    let mut w: Vertex<u64> = Vertex::Empty;
    w.init(0, 1);
    w.add_neigh(4);
    w.set_val(7);
    assert!(matches!(&w, Vertex::V { id: 0, val: 7, neigh } if neigh.len() == 1));
    assert_eq!(w.get_val(), Some(7));
}

#[test]
fn graph_hands_out_slots_in_order() {
    let mut g: Graph<u64> = Graph::new();
    g.add_vtx(0, 100);
    g.add_vtx(1, 200);
    g.add_edge(0, 1);
    g.add_edge(0, 0);
    g.add_edge(1, 0);
    let shown = format!("{:?}", g);
    assert!(shown.contains("next_vtx: 2"));
    assert!(shown.contains("id: 0, val: 100, neigh: [1, 0]"));
    assert!(shown.contains("id: 1, val: 200, neigh: [0]"));
}

#[test]
fn graph_create_then_init() {
    let mut g: Graph<u64> = Graph::new();
    g.create_vtx();
    g.create_vtx();
    g.add_edge(1, 0);
    g.init_vtx(1, 11);
    g.init_vtx(1, 12);
    g.add_edge(1, 0);
    let shown = format!("{:?}", g);
    assert!(shown.contains("[Empty, V { id: 1, val: 11, neigh: [0] }]"));
}

#[test]
fn weighted_graph_groups_edges_in_list_order() {
    let el = vec![(2, 0, 7), (0, 1, 5), (0, 2, 9), (1, 2, 1), (0, 1, 3)];
    let g: raphy::graph::CSR<f64> = raphy::graph::CSR::new(3, el);
    assert_eq!(g.get_v(), 3);
    assert_eq!(g.neighbors_slice(0), &[(1, 5), (2, 9), (1, 3)]);
    assert_eq!(g.neighbors_slice(1), &[(2, 1)]);
    assert_eq!(g.neighbors_slice(2), &[(0, 7)]);
}

#[test]
fn weighted_traversal_calls_once_per_edge_in_order() {
    let el = vec![(2, 0, 7), (0, 1, 5), (0, 2, 9), (1, 2, 1)];
    let mut g: raphy::graph::CSR<f64> = raphy::graph::CSR::new(4, el);
    let seen = std::cell::RefCell::new(Vec::new());
    g.read_only_traversal(|s, d, w| seen.borrow_mut().push((s, d, w)));
    assert_eq!(seen.into_inner(), vec![(0, 1, 5), (0, 2, 9), (1, 2, 1), (2, 0, 7)]);
    g.get_mut_vtxprop()[3] = 2.5;
    assert_eq!(g.get_mut_vtxprop().to_vec(), vec![0.0, 0.0, 0.0, 2.5]);
}

#[test]
fn graph_slots_can_be_read() {
    let mut g: Graph<u64> = Graph::new();
    assert_eq!(g.num_slots(), 0);
    g.add_vtx(0, 100);
    g.create_vtx();
    assert_eq!(g.num_slots(), 2);
    assert!(matches!(g.get_vtx(0), Vertex::V { id: 0, val: 100, .. }));
    assert!(matches!(g.get_vtx(1), Vertex::Empty));
}
