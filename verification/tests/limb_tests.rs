use bigint_modulus::bits::BitLength;
use bigint_modulus::limb::{
    limbs_are_even_constant_time, limbs_double_mod, limbs_from_be_bytes,
    limbs_less_than_limb_constant_time, limbs_minimal_bits, limbs_to_be_bytes, Limb, LimbMask,
    LIMB_BITS, LIMB_BYTES,
};
use bigint_modulus::n0::{bn_neg_inv_mod_r_u64, N0, LIMBS_USED};

#[test]
fn limb_width_is_64_bits() {
    assert_eq!(LIMB_BITS, 64);
    assert_eq!(LIMB_BYTES, 8);
    assert_eq!(LIMBS_USED, 1);
    assert_eq!(Limb::MAX, u64::MAX);
}

#[test]
fn parity_is_that_of_the_lowest_limb() {
    assert_eq!(limbs_are_even_constant_time(&[]), LimbMask::True);
    assert_eq!(limbs_are_even_constant_time(&[0]), LimbMask::True);
    assert_eq!(limbs_are_even_constant_time(&[1]), LimbMask::False);
    assert_eq!(limbs_are_even_constant_time(&[2, 1, 1, 1]), LimbMask::True);
    assert_eq!(limbs_are_even_constant_time(&[u64::MAX, 0, 0, 0]), LimbMask::False);
    assert_eq!(limbs_are_even_constant_time(&[u64::MAX - 1, 1, 3, 5]), LimbMask::True);
    assert_eq!(limbs_are_even_constant_time(&[3, 2, 2, 2]), LimbMask::False);
}

#[test]
fn less_than_limb_compares_the_whole_value() {
    assert_eq!(limbs_less_than_limb_constant_time(&[], 0), LimbMask::False);
    assert_eq!(limbs_less_than_limb_constant_time(&[], 1), LimbMask::True);
    assert_eq!(limbs_less_than_limb_constant_time(&[2], 3), LimbMask::True);
    assert_eq!(limbs_less_than_limb_constant_time(&[3], 3), LimbMask::False);
    assert_eq!(limbs_less_than_limb_constant_time(&[4], 3), LimbMask::False);
    assert_eq!(limbs_less_than_limb_constant_time(&[0, 0, 0, 0], 3), LimbMask::True);
    assert_eq!(limbs_less_than_limb_constant_time(&[1, 0, 0, 0], 3), LimbMask::True);
    assert_eq!(limbs_less_than_limb_constant_time(&[1, 0, 0, 1], 3), LimbMask::False);
    assert_eq!(limbs_less_than_limb_constant_time(&[1, 1, 0, 0], 3), LimbMask::False);
    assert_eq!(limbs_less_than_limb_constant_time(&[0, 0], 0), LimbMask::False);
    assert_eq!(limbs_less_than_limb_constant_time(&[u64::MAX - 1], u64::MAX), LimbMask::True);
    assert_eq!(limbs_less_than_limb_constant_time(&[u64::MAX], u64::MAX), LimbMask::False);
    assert_eq!(limbs_less_than_limb_constant_time(&[0, 1], u64::MAX), LimbMask::False);
}

#[test]
fn minimal_bits_skips_leading_zeros() {
    assert_eq!(limbs_minimal_bits(&[]), BitLength::from_usize_bits(0));
    assert_eq!(limbs_minimal_bits(&[0]).as_usize_bits(), 0);
    assert_eq!(limbs_minimal_bits(&[0, 0, 0]).as_usize_bits(), 0);
    assert_eq!(limbs_minimal_bits(&[1]).as_usize_bits(), 1);
    assert_eq!(limbs_minimal_bits(&[2]).as_usize_bits(), 2);
    assert_eq!(limbs_minimal_bits(&[3]).as_usize_bits(), 2);
    assert_eq!(limbs_minimal_bits(&[0xff]).as_usize_bits(), 8);
    assert_eq!(limbs_minimal_bits(&[0x100]).as_usize_bits(), 9);
    assert_eq!(limbs_minimal_bits(&[u64::MAX]).as_usize_bits(), 64);
    assert_eq!(limbs_minimal_bits(&[1 << 63]).as_usize_bits(), 64);
    assert_eq!(limbs_minimal_bits(&[0, 1]).as_usize_bits(), 65);
    assert_eq!(limbs_minimal_bits(&[u64::MAX, 1, 0, 0]).as_usize_bits(), 65);
    assert_eq!(limbs_minimal_bits(&[0, 0, 0, 0x1f]).as_usize_bits(), 197);
    assert_eq!(limbs_minimal_bits(&[7, 7, 7, u64::MAX]).as_usize_bits(), 256);
}

#[test]
fn double_mod_without_reduction() {
    let m = [0xffff_ffff_ffff_ff43u64, u64::MAX, u64::MAX, u64::MAX];
    let mut r: Vec<Limb> = vec![5, 0, 0, 0];
    limbs_double_mod(&mut r, &m);
    assert_eq!(r, vec![10, 0, 0, 0]);
    let mut r: Vec<Limb> = vec![1 << 63, 0, 0, 0];
    limbs_double_mod(&mut r, &m);
    assert_eq!(r, vec![0, 1, 0, 0]);
}

#[test]
fn double_mod_with_overflow_past_the_top_limb() {
    let m = [0xffff_ffff_ffff_ff43u64, u64::MAX, u64::MAX, u64::MAX];
    let mut r: Vec<Limb> = vec![0xffff_ffff_ffff_ff3e, u64::MAX, u64::MAX, u64::MAX];
    limbs_double_mod(&mut r, &m);
    assert_eq!(r, vec![0xffff_ffff_ffff_ff39, u64::MAX, u64::MAX, u64::MAX]);
    let mut r: Vec<Limb> = vec![0, 0, 0, 1 << 63];
    limbs_double_mod(&mut r, &m);
    assert_eq!(r, vec![189, 0, 0, 0]);
}

#[test]
fn double_mod_with_reduction_and_no_overflow() {
    let m = [7u64, 0];
    let mut r: Vec<Limb> = vec![4, 0];
    limbs_double_mod(&mut r, &m);
    assert_eq!(r, vec![1, 0]);
    let mut r: Vec<Limb> = vec![6, 0];
    limbs_double_mod(&mut r, &m);
    assert_eq!(r, vec![5, 0]);
    let mut r: Vec<Limb> = vec![3, 0];
    limbs_double_mod(&mut r, &m);
    assert_eq!(r, vec![6, 0]);
    let mut r: Vec<Limb> = vec![0, 0];
    limbs_double_mod(&mut r, &m);
    assert_eq!(r, vec![0, 0]);
}

#[test]
fn double_mod_compares_from_the_top_limb_down() {
    let m = [6u64, 9, 2];
    // 2 r is below m in the top limb.
    let mut r: Vec<Limb> = vec![(1 << 63) + 2, (1 << 63) + 4, 0];
    limbs_double_mod(&mut r, &m);
    assert_eq!(r, vec![4, 9, 1]);
    // 2 r agrees with m in the upper limbs and is below it in the lowest.
    let mut r: Vec<Limb> = vec![(1 << 63) + 2, 4, 1];
    limbs_double_mod(&mut r, &m);
    assert_eq!(r, vec![4, 9, 2]);
    // 2 r is m.
    let mut r: Vec<Limb> = vec![(1 << 63) + 3, 4, 1];
    limbs_double_mod(&mut r, &m);
    assert_eq!(r, vec![0, 0, 0]);
    // 2 r agrees with m in the upper limbs and is above it in the lowest.
    let mut r: Vec<Limb> = vec![(1 << 63) + 4, 4, 1];
    limbs_double_mod(&mut r, &m);
    assert_eq!(r, vec![2, 0, 0]);
}

#[test]
fn double_mod_hits_the_modulus_exactly() {
    let m = [0u64, 2];
    let mut r: Vec<Limb> = vec![0, 1];
    limbs_double_mod(&mut r, &m);
    assert_eq!(r, vec![0, 0]);
}

#[test]
fn decoding_bytes_fills_limbs_from_the_low_end() {
    assert_eq!(limbs_from_be_bytes(&[]), Vec::<Limb>::new());
    assert_eq!(limbs_from_be_bytes(&[0]), Vec::<Limb>::new());
    assert_eq!(limbs_from_be_bytes(&[0, 0, 0]), Vec::<Limb>::new());
    assert_eq!(limbs_from_be_bytes(&[1]), vec![1]);
    assert_eq!(limbs_from_be_bytes(&[0x12, 0x34]), vec![0x1234]);
    assert_eq!(
        limbs_from_be_bytes(&[1, 2, 3, 4, 5, 6, 7, 8]),
        vec![0x0102_0304_0506_0708]
    );
    assert_eq!(
        limbs_from_be_bytes(&[9, 1, 2, 3, 4, 5, 6, 7, 8]),
        vec![0x0102_0304_0506_0708, 9]
    );
    assert_eq!(
        limbs_from_be_bytes(&[0xff; 16]),
        vec![u64::MAX, u64::MAX]
    );
}

#[test]
fn decoding_bytes_strips_leading_zero_bytes() {
    assert_eq!(limbs_from_be_bytes(&[0, 0, 0, 0, 0, 0, 0, 0, 0, 5]), vec![5]);
    assert_eq!(
        limbs_from_be_bytes(&[0, 9, 1, 2, 3, 4, 5, 6, 7, 8]),
        vec![0x0102_0304_0506_0708, 9]
    );
    assert_eq!(
        limbs_from_be_bytes(&[0, 0, 1, 0, 0, 0, 0, 0, 0, 0, 0]),
        vec![0, 1]
    );
}

#[test]
fn encoding_limbs_drops_leading_zero_bytes() {
    assert_eq!(limbs_to_be_bytes(&[]), Vec::<u8>::new());
    assert_eq!(limbs_to_be_bytes(&[0, 0]), Vec::<u8>::new());
    assert_eq!(limbs_to_be_bytes(&[5]), vec![5]);
    assert_eq!(limbs_to_be_bytes(&[0x1234, 0, 0]), vec![0x12, 0x34]);
    assert_eq!(
        limbs_to_be_bytes(&[0x0102_0304_0506_0708, 9]),
        vec![9, 1, 2, 3, 4, 5, 6, 7, 8]
    );
    assert_eq!(limbs_to_be_bytes(&[0, 1]), vec![1, 0, 0, 0, 0, 0, 0, 0, 0]);
    assert_eq!(limbs_to_be_bytes(&[0x0100]), vec![1, 0]);
    assert_eq!(limbs_to_be_bytes(&[u64::MAX]), vec![0xff; 8]);
}

#[test]
fn encode_then_decode_gives_the_minimal_limbs() {
    let limbs: [Limb; 5] = [
        0x8796_a5b4_c3d2_e1f1,
        0x0f1e_2d3c_4b5a_6978,
        0xfedc_ba98_7654_3210,
        0x0123_4567_89ab_cdef,
        0x1f,
    ];
    let bytes = limbs_to_be_bytes(&limbs);
    assert_eq!(bytes.len(), 33);
    assert_eq!(bytes[0], 0x1f);
    assert_eq!(limbs_from_be_bytes(&bytes), limbs.to_vec());
    let padded: [Limb; 3] = [7, 0, 0];
    assert_eq!(limbs_from_be_bytes(&limbs_to_be_bytes(&padded)), vec![7]);
}

#[test]
fn n0_of_three() {
    let n0 = bn_neg_inv_mod_r_u64(3);
    assert_eq!(n0, 0x5555_5555_5555_5555);
    assert_eq!(n0.wrapping_mul(3), u64::MAX);
}

#[test]
fn n0_of_two_to_the_64_minus_59() {
    let n: u64 = u64::MAX - 58;
    let n0 = bn_neg_inv_mod_r_u64(n);
    assert_eq!(n0, 0xcbee_a4e1_a08a_d8f3);
    assert_eq!(n0.wrapping_mul(n), u64::MAX);
}

#[test]
fn n0_of_one_and_of_the_largest_limb() {
    assert_eq!(bn_neg_inv_mod_r_u64(1), u64::MAX);
    assert_eq!(bn_neg_inv_mod_r_u64(u64::MAX), 1);
    assert_eq!(bn_neg_inv_mod_r_u64(0x1234_5678_9abc_def1), 0x8848_c297_4d33_adef);
}

#[test]
fn n0_times_n_is_minus_one_for_many_odd_n() {
    let mut n: u64 = 1;
    let mut count = 0;
    while count < 2000 {
        let n0 = bn_neg_inv_mod_r_u64(n);
        assert_eq!(n0.wrapping_mul(n).wrapping_add(1), 0);
        n = n.wrapping_mul(0x9e37_79b9_7f4a_7c15).wrapping_add(0x1234_5678) | 1;
        count += 1;
    }
}

#[test]
fn n0_from_a_word_keeps_the_upper_limb_zero() {
    let n0 = N0::from(0x5555_5555_5555_5555u64);
    assert_eq!(n0.limbs(), &[0x5555_5555_5555_5555u64, 0]);
    let copy = n0.clone();
    assert_eq!(copy.limbs(), n0.limbs());
}
