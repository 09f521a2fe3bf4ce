use textstep::audio::fft::bit_reverse_permute;

#[test]
fn eight_points_are_bit_reversed() {
    let mut re: Vec<u32> = (0..8).collect();
    let mut im: Vec<u32> = (10..18).collect();
    bit_reverse_permute(&mut re, &mut im);
    assert_eq!(re, vec![0, 4, 2, 6, 1, 5, 3, 7]);
    assert_eq!(im, vec![10, 14, 12, 16, 11, 15, 13, 17]);
}

#[test]
fn permuting_twice_restores_the_order() {
    let orig: Vec<f32> = (0..64).map(|i| i as f32 * 0.5).collect();
    let mut re = orig.clone();
    let mut im = orig.clone();
    bit_reverse_permute(&mut re, &mut im);
    assert_ne!(re, orig);
    bit_reverse_permute(&mut re, &mut im);
    assert_eq!(re, orig);
    assert_eq!(im, orig);
}

#[test]
fn one_and_two_points_stay() {
    let mut re = vec![3u8];
    let mut im = vec![4u8];
    bit_reverse_permute(&mut re, &mut im);
    assert_eq!((re, im), (vec![3], vec![4]));
    let mut re = vec![1u8, 2];
    let mut im = vec![3u8, 4];
    bit_reverse_permute(&mut re, &mut im);
    assert_eq!((re, im), (vec![1, 2], vec![3, 4]));
}

#[test]
fn sixteen_points_follow_reversed_indices() {
    let mut re: Vec<usize> = (0..16).collect();
    let mut im = re.clone();
    bit_reverse_permute(&mut re, &mut im);
    for (k, &v) in re.iter().enumerate() {
        assert_eq!(v, (k.reverse_bits() >> (usize::BITS - 4)));
    }
}
