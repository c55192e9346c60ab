use qwen3_asr::conv::{im2col_3x3_s2p1, pixels_to_planes};

/// A convolution of `[b, c_in, h, w]` with filters `[c_out, c_in, 3, 3]`.
fn conv2d_forward(
    input: &[f32],
    shape: [usize; 4],
    weight: &[f32],
    c_out: usize,
) -> (Vec<f32>, [usize; 4]) {
    let [b, c_in, h, w] = shape;
    let p = im2col_3x3_s2p1(input, b, c_in, h, w, 0.0);
    let mut rows = Vec::new();
    for patch in p.data.chunks(c_in * 9) {
        for filter in weight.chunks(c_in * 9) {
            rows.push(patch.iter().zip(filter).map(|(a, b)| a * b).sum());
        }
    }
    let out = pixels_to_planes(&rows, b, c_out, p.h_out, p.w_out);
    (out, [b, c_out, p.h_out, p.w_out])
}

#[test]
fn test_conv2d_simple() {
    let input: Vec<f32> = (1..=16).map(|i| i as f32).collect();
    let weight = vec![1.0f32; 9];
    let (out, shape) = conv2d_forward(&input, [1, 1, 4, 4], &weight, 1);
    assert_eq!(shape, [1, 1, 2, 2], "output shape mismatch");
    let expected = vec![14.0f32, 30.0, 57.0, 99.0];
    for (i, (a, b)) in out.iter().zip(expected.iter()).enumerate() {
        assert!((a - b).abs() < 1e-3, "output[{}] = {}, expected {}", i, a, b);
    }
}

#[test]
fn test_conv2d_multi_channel() {
    let input: Vec<f32> = (1..=32).map(|i| i as f32).collect();
    let weight: Vec<f32> = (1..=54).map(|i| i as f32 * 0.01).collect();
    let (out, shape) = conv2d_forward(&input, [1, 2, 4, 4], &weight, 3);
    assert_eq!(shape, [1, 3, 2, 2], "output shape mismatch");
    assert_eq!(out.len(), 12);
    assert!(out.iter().all(|v| v.is_finite()), "all values must be finite");
}

#[test]
fn patches_are_padded_and_ordered_by_channel() {
    // Two channels of 1x2: the middle row of the taps lies on the input.
    let p = im2col_3x3_s2p1(&[1, 2, 3, 4], 1, 2, 1, 2, 0);
    assert_eq!((p.h_out, p.w_out), (1, 1));
    assert_eq!(p.data, vec![0, 0, 0, 0, 1, 2, 0, 0, 0, 0, 0, 0, 0, 3, 4, 0, 0, 0]);
    // An odd width has a last output pixel of its own.
    let p = im2col_3x3_s2p1(&[1, 2, 3], 1, 1, 1, 3, 0);
    assert_eq!((p.h_out, p.w_out), (1, 2));
    assert_eq!(p.data, vec![0, 0, 0, 0, 1, 2, 0, 0, 0, 0, 0, 0, 2, 3, 0, 0, 0, 0]);
}

#[test]
fn every_pixel_lies_under_a_tap() {
    for n in 1..9usize {
        let x: Vec<usize> = (1..=n).collect();
        let p = im2col_3x3_s2p1(&x, 1, 1, 1, n, 0);
        assert!(x.iter().all(|v| p.data.contains(v)));
    }
}

#[test]
fn pixels_go_to_planes() {
    let rows = [1, 10, 2, 20, 3, 30, 4, 40];
    assert_eq!(pixels_to_planes(&rows, 1, 2, 2, 2), vec![1, 2, 3, 4, 10, 20, 30, 40]);
    assert_eq!(pixels_to_planes(&rows, 2, 2, 1, 2), vec![1, 2, 10, 20, 3, 4, 30, 40]);
}
