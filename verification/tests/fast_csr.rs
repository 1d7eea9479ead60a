use byte_slice_cast::AsByteSlice;
use raphy::csr::CSR;
use raphy::fast_csr::{FastCSR, ImageError};
use std::sync::atomic::{AtomicUsize, Ordering};
use std::sync::Mutex;

fn words(ws: &[u64]) -> Vec<u8> {
    let mut out = Vec::new();
    for w in ws {
        out.extend_from_slice(&w.to_le_bytes());
    }
    out
}

#[test]
fn image_has_the_documented_layout() {
    let csr: CSR<f64> = CSR::new(3, vec![(0, 1), (0, 2), (1, 2), (2, 0)]);
    let bytes = csr.to_image();
    assert_eq!(bytes.len(), 16 + 8 * 3 + 8 * 4);
    assert_eq!(bytes, words(&[3, 4, 0, 2, 3, 1, 2, 2, 0]));
    assert_eq!(&bytes[0..8], &[3, 0, 0, 0, 0, 0, 0, 0]);
    assert_eq!(&bytes[24..32], &[2, 0, 0, 0, 0, 0, 0, 0]);
}

#[test]
fn image_words_are_little_endian() {
    let csr: CSR<f64> = CSR::new(300, vec![(299, 258)]);
    let bytes = csr.to_image();
    assert_eq!(&bytes[0..8], &[44, 1, 0, 0, 0, 0, 0, 0]);
    assert_eq!(&bytes[8..16], &[1, 0, 0, 0, 0, 0, 0, 0]);
    let n = bytes.len();
    assert_eq!(&bytes[n - 8..], &[2, 1, 0, 0, 0, 0, 0, 0]);
}

#[test]
fn image_round_trip_keeps_counts_and_neighbours() {
    let numv = 23;
    let mut el = Vec::new();
    for v in 0..numv {
        for k in 0..(v % 4) {
            el.push((v, (v * 3 + k * 5) % numv));
        }
    }
    let csr: CSR<f64> = CSR::new(numv, el);
    let bytes = csr.to_image();
    let fast = FastCSR::new(&bytes).unwrap();
    assert!(fast.is_valid());
    assert_eq!(fast.getv(), csr.get_v());
    assert_eq!(fast.gete(), csr.get_e());
    for v in 0..numv {
        assert_eq!(fast.offset(v), csr.get_offsets()[v]);
        assert_eq!(fast.neighbors(v).as_slice(), csr.neighbors_slice(v));
    }
}

#[test]
fn short_header_is_refused() {
    assert_eq!(FastCSR::new(&[]).err(), Some(ImageError::HeaderTooShort));
    assert_eq!(FastCSR::new(&[0u8; 8]).err(), Some(ImageError::HeaderTooShort));
    assert_eq!(FastCSR::new(&[0u8; 15]).err(), Some(ImageError::HeaderTooShort));
    assert!(FastCSR::new(&[0u8; 16]).is_ok());
}

#[test]
fn truncated_image_is_refused() {
    let mut bytes = words(&[2, 1, 0, 1, 0]);
    assert!(FastCSR::new(&bytes).is_ok());
    bytes.pop();
    assert_eq!(FastCSR::new(&bytes).err(), Some(ImageError::Truncated));
    assert_eq!(FastCSR::new(&words(&[u64::MAX, 0])).err(), Some(ImageError::Truncated));
    assert_eq!(FastCSR::new(&words(&[0, u64::MAX])).err(), Some(ImageError::Truncated));
    assert_eq!(FastCSR::new(&words(&[1u64 << 61, 1u64 << 61, 0])).err(), Some(ImageError::Truncated));
}

#[test]
fn image_with_trailing_bytes_opens() {
    let mut bytes = words(&[2, 1, 0, 1, 0]);
    bytes.extend_from_slice(&[9, 9, 9]);
    let fast = FastCSR::new(&bytes).unwrap();
    assert!(fast.is_valid());
    assert_eq!(fast.neighbors(0), vec![0]);
    assert!(fast.neighbors(1).is_empty());
}

#[test]
fn is_valid_finds_bad_offsets_and_destinations() {
    let good = words(&[2, 2, 0, 1, 1, 0]);
    assert!(FastCSR::new(&good).unwrap().is_valid());
    let decreasing = words(&[2, 2, 1, 0, 1, 0]);
    assert!(!FastCSR::new(&decreasing).unwrap().is_valid());
    let past_end = words(&[2, 2, 0, 3, 1, 0]);
    assert!(!FastCSR::new(&past_end).unwrap().is_valid());
    let last_past_end = words(&[2, 2, 0, 3, 1, 0]);
    assert!(!FastCSR::new(&last_past_end).unwrap().is_valid());
    let bad_destination = words(&[2, 2, 0, 1, 1, 2]);
    assert!(!FastCSR::new(&bad_destination).unwrap().is_valid());
    let empty = words(&[0, 0]);
    assert!(FastCSR::new(&empty).unwrap().is_valid());
}

#[test]
fn neighbor_scan_prop_fills_the_callers_array() {
    let csr: CSR<f64> = CSR::new(3, vec![(0, 1), (0, 2), (1, 2), (2, 0)]);
    let bytes = csr.to_image();
    let fast = FastCSR::new(&bytes).unwrap();
    assert!(fast.is_valid());
    let mut prop = vec![-1.0f64; 3];
    fast.neighbor_scan_prop(|v, ns| (100 * v + ns.iter().sum::<usize>()) as f64, &mut prop);
    assert_eq!(prop, vec![3.0, 102.0, 200.0]);
    let mut shorter = vec![-1.0f64; 2];
    fast.neighbor_scan_prop(|v, ns| (v + ns.len()) as f64, &mut shorter);
    assert_eq!(shorter, vec![2.0, 2.0]);
}

#[test]
fn neighbor_scan_calls_once_per_vertex() {
    let numv = 200;
    let el: Vec<(usize, usize)> = (0..numv).flat_map(|v| vec![(v, (v + 1) % numv), (v, (v + 2) % numv)]).collect();
    let csr: CSR<f64> = CSR::new(numv, el);
    let bytes = csr.to_image();
    let fast = FastCSR::new(&bytes).unwrap();
    assert!(fast.is_valid());
    let seen = Mutex::new(Vec::new());
    fast.neighbor_scan(|v, ns| seen.lock().unwrap().push((v, ns.to_vec())));
    let mut seen = seen.into_inner().unwrap();
    seen.sort();
    assert_eq!(seen.len(), numv);
    for v in 0..numv {
        assert_eq!(seen[v], (v, vec![(v + 1) % numv, (v + 2) % numv]));
    }
}

#[test]
fn fast_read_only_scan_calls_once_per_edge() {
    let el = vec![(0, 1), (0, 2), (1, 2), (2, 0), (2, 2)];
    let csr: CSR<f64> = CSR::new(3, el.clone());
    let bytes = csr.to_image();
    let fast = FastCSR::new(&bytes).unwrap();
    assert!(fast.is_valid());
    let count = AtomicUsize::new(0);
    let seen = Mutex::new(Vec::new());
    fast.read_only_scan(|s, d| {
        count.fetch_add(1, Ordering::SeqCst);
        seen.lock().unwrap().push((s, d));
    });
    assert_eq!(count.load(Ordering::SeqCst), 5);
    let mut seen = seen.into_inner().unwrap();
    seen.sort();
    let mut expected = el;
    expected.sort();
    assert_eq!(seen, expected);
}

#[test]
fn scan_into_and_scan_edges_of_handle_one_vertex() {
    let csr: CSR<f64> = CSR::new(3, vec![(0, 1), (0, 2), (1, 2), (2, 0)]);
    let bytes = csr.to_image();
    let fast = FastCSR::new(&bytes).unwrap();
    assert!(fast.is_valid());
    let mut slot = 0usize;
    fast.scan_into(0, &mut slot, &|v: usize, ns: &[usize]| v + 10 * ns[0] + 100 * ns[1]);
    assert_eq!(slot, 210);
    let seen = Mutex::new(Vec::new());
    fast.scan_edges_of(0, &|s: usize, d: usize| seen.lock().unwrap().push((s, d)));
    assert_eq!(seen.into_inner().unwrap(), vec![(0, 1), (0, 2)]);
}

#[test]
fn offsets_are_read_from_the_image() {
    let bytes = words(&[3, 4, 0, 2, 3, 1, 2, 2, 0]);
    let fast = FastCSR::new(&bytes).unwrap();
    assert!(fast.is_valid());
    assert_eq!((fast.getv(), fast.gete()), (3, 4));
    assert_eq!((fast.offset(0), fast.offset(1), fast.offset(2)), (0, 2, 3));
    assert_eq!(fast.neighbors(0), vec![1, 2]);
    assert_eq!(fast.neighbors(1), vec![2]);
    assert_eq!(fast.neighbors(2), vec![0]);
}

#[test]
fn view_in_words_accepts_only_words_that_agree_with_the_image() {
    let bytes = words(&[3, 4, 0, 2, 3, 1, 2, 2, 0]);
    let fast = FastCSR::new(&bytes).unwrap();
    assert!(fast.is_valid());
    let same: Vec<usize> = vec![1, 2, 2, 0];
    assert_eq!(fast.view_in_words(0, &same), Some(&same[0..2]));
    assert_eq!(fast.view_in_words(1, &same), Some(&same[2..3]));
    assert_eq!(fast.view_in_words(2, &same), Some(&same[3..4]));
    let other_elsewhere: Vec<usize> = vec![1, 2, 7, 7];
    assert_eq!(fast.view_in_words(0, &other_elsewhere), Some(&other_elsewhere[0..2]));
    assert_eq!(fast.view_in_words(1, &other_elsewhere), None);
    let short: Vec<usize> = vec![1, 2, 2];
    assert_eq!(fast.view_in_words(1, &short), Some(&short[2..3]));
    assert_eq!(fast.view_in_words(2, &short), None);
    let longer: Vec<usize> = vec![1, 2, 2, 0, 5];
    assert_eq!(fast.view_in_words(2, &longer), Some(&longer[3..4]));
}

#[test]
fn neighbors_view_reads_an_aligned_image_in_place() {
    let backing: Vec<u64> = vec![3, 4, 0, 2, 3, 1, 2, 2, 0];
    let bytes: &[u8] = backing.as_byte_slice();
    let fast = FastCSR::new(bytes).unwrap();
    assert!(fast.is_valid());
    for v in 0..3 {
        let copy = fast.neighbors(v);
        match fast.neighbors_view(v) {
            Some(view) => {
                assert_eq!(view, copy.as_slice());
                let first = bytes.as_ptr() as usize + 16 + 8 * 3;
                let at = view.as_ptr() as usize;
                assert!(view.is_empty() || (at >= first && at < first + 8 * 4));
            }
            None => assert!(usize::BITS != 64 || 1u64.to_le() != 1),
        }
    }
}

#[test]
fn neighbors_view_gives_way_on_a_misaligned_image() {
    let image = words(&[3, 4, 0, 2, 3, 1, 2, 2, 0]);
    let mut buffer = vec![0u8; image.len() + 16];
    let base = buffer.as_ptr() as usize;
    let shift = (0..8).find(|o| (base + o) % 8 == 1).unwrap();
    buffer[shift..shift + image.len()].copy_from_slice(&image);
    let fast = FastCSR::new(&buffer[shift..shift + image.len()]).unwrap();
    assert!(fast.is_valid());
    assert_eq!(fast.neighbors_view(0), None);
    assert_eq!(fast.neighbors(0), vec![1, 2]);
    let mut prop = vec![0usize; 3];
    fast.neighbor_scan_prop(|v, ns| 10 * v + ns.len(), &mut prop);
    assert_eq!(prop, vec![2, 11, 21]);
}

#[test]
fn neighbors_view_of_an_image_without_edges_is_always_given() {
    let image = words(&[2, 0, 0, 0]);
    let mut buffer = vec![0u8; image.len() + 16];
    let base = buffer.as_ptr() as usize;
    let shift = (0..8).find(|o| (base + o) % 8 == 1).unwrap();
    buffer[shift..shift + image.len()].copy_from_slice(&image);
    let fast = FastCSR::new(&buffer[shift..shift + image.len()]).unwrap();
    assert!(fast.is_valid());
    let empty: &[usize] = &[];
    assert_eq!(fast.neighbors_view(0), Some(empty));
    assert_eq!(fast.neighbors_view(1), Some(empty));
}
