use audact::system::smooth_source;

#[test]
fn smoothing_keeps_length_and_fills_trailing_zeros() {
    let mut buf: Vec<i64> = vec![1000000, 0, 0, 5];
    smooth_source(&mut buf);
    // Zeros take 99 percent of the preceding processed sample; every
    // non-zero sample is untouched.
    assert_eq!(buf, vec![1000000, 990000, 980100, 5]);
}

#[test]
fn smoothing_fills_leading_zeros_backward() {
    // The second, reversed pass smooths what were originally leading
    // edges.
    let mut buf: Vec<i64> = vec![0, 0, 1000000];
    smooth_source(&mut buf);
    assert_eq!(buf, vec![980100, 990000, 1000000]);
}

#[test]
fn smoothing_is_a_no_op_on_nonzero_buffers() {
    let original: Vec<i64> = vec![7, -3, 250, -251, 1];
    let mut buf = original.clone();
    smooth_source(&mut buf);
    assert_eq!(buf, original);
}

#[test]
fn smoothing_twice_keeps_every_nonzero_sample() {
    let mut once: Vec<i64> = vec![400, 0, 0, -400, 0];
    smooth_source(&mut once);
    let mut twice = once.clone();
    smooth_source(&mut twice);
    for i in 0..once.len() {
        if once[i] != 0 {
            assert_eq!(twice[i], once[i], "at {}", i);
        }
    }
}

#[test]
fn smoothing_decays_negative_samples_toward_zero() {
    let mut buf: Vec<i64> = vec![-1000000, 0, 0, 0];
    smooth_source(&mut buf);
    assert_eq!(buf, vec![-1000000, -990000, -980100, -970299]);
}

#[test]
fn smoothing_an_empty_buffer_leaves_it_empty() {
    let mut buf: Vec<i64> = vec![];
    smooth_source(&mut buf);
    assert_eq!(buf.len(), 0);
}
