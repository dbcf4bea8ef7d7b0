use sp1_core::runtime::Runtime;

/// The fixed-width little-endian encoding of a point `{ x: usize, y: usize, b: bool }`.
fn encode_point(x: u64, y: u64, b: bool) -> Vec<u8> {
    let mut v = Vec::new();
    v.extend_from_slice(&x.to_le_bytes());
    v.extend_from_slice(&y.to_le_bytes());
    v.push(b as u8);
    v
}

#[test]
fn test_io_run() {
    let mut runtime = Runtime::new();
    runtime.write_stdin_slice(&encode_point(3, 5, true));
    runtime.write_stdin_slice(&encode_point(8, 19, true));
    assert_eq!(runtime.state.input_stream.len(), 2);
    assert_eq!(runtime.state.input_stream[1], encode_point(8, 19, true));
    // the program commits the sum of the two points
    runtime.state.public_values_stream = encode_point(11, 24, true);
    let mut buf = [0u8; 17];
    runtime.read_public_values_slice(&mut buf);
    assert_eq!(u64::from_le_bytes(buf[0..8].try_into().unwrap()), 11);
    assert_eq!(u64::from_le_bytes(buf[8..16].try_into().unwrap()), 24);
    assert_eq!(buf[16], 1);
    assert_eq!(runtime.state.public_values_stream_ptr, 17);
}

#[test]
fn write_vecs_appends_in_order() {
    let mut runtime = Runtime::new();
    runtime.write_stdin_slice(&[1, 2]);
    runtime.write_vecs(&[vec![3], vec![], vec![4, 5, 6]]);
    assert_eq!(runtime.state.input_stream, vec![vec![1, 2], vec![3], vec![], vec![4, 5, 6]]);
}

#[test]
fn public_values_read_in_pieces() {
    let mut runtime = Runtime::new();
    runtime.state.public_values_stream = (0u8..10).collect();
    let mut a = [0u8; 4];
    let mut b = [0u8; 6];
    runtime.read_public_values_slice(&mut a);
    runtime.read_public_values_slice(&mut b);
    assert_eq!(a, [0, 1, 2, 3]);
    assert_eq!(b, [4, 5, 6, 7, 8, 9]);
    let mut empty = [0u8; 0];
    runtime.read_public_values_slice(&mut empty);
    assert_eq!(runtime.state.public_values_stream_ptr, 10);
}
