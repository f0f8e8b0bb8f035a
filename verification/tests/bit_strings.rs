use rasn_compiler::intermediate::error::GrammarErrorType;
use rasn_compiler::validator::linking::utils::{
    bit_string_to_octet_string, octet_string_to_bit_string,
};

#[test]
fn bit_string_of_one_octet() {
    let bits = vec![true, false, true, true, false, false, false, false];
    assert_eq!(bit_string_to_octet_string(&bits).unwrap(), vec![0xB0u8]);
}

#[test]
fn bit_string_of_seven_bits_is_rejected() {
    let bits = vec![true; 7];
    let error = bit_string_to_octet_string(&bits).unwrap_err();
    assert_eq!(error.kind, GrammarErrorType::LinkerError);
    assert_eq!(error.details, "Binary octet string value needs to be a multiple of 8 bits!");
}

#[test]
fn empty_bit_string_gives_no_octets() {
    assert_eq!(bit_string_to_octet_string(&vec![]).unwrap(), Vec::<u8>::new());
}

#[test]
fn bit_string_of_two_octets() {
    let mut bits = vec![false; 16];
    bits[7] = true;
    bits[8] = true;
    bits[15] = true;
    assert_eq!(bit_string_to_octet_string(&bits).unwrap(), vec![0x01u8, 0x81u8]);
}

#[test]
fn octets_give_their_bits_most_significant_first() {
    assert_eq!(
        octet_string_to_bit_string(&vec![0xB0, 0x01]),
        vec![
            true, false, true, true, false, false, false, false, false, false, false, false, false, false,
            false, true
        ]
    );
    assert_eq!(octet_string_to_bit_string(&vec![]), Vec::<bool>::new());
}

#[test]
fn every_octet_is_read_back_from_its_bits() {
    let octets: Vec<u8> = (0..=255).collect();
    let bits = octet_string_to_bit_string(&octets);
    assert_eq!(bits.len(), 8 * 256);
    assert_eq!(bit_string_to_octet_string(&bits).unwrap(), octets);
}

#[test]
fn a_bit_string_of_whole_octets_is_read_back_from_its_octets() {
    let mut bits = Vec::new();
    let mut seed: u32 = 12345;
    for _ in 0..64 {
        seed = seed.wrapping_mul(1103515245).wrapping_add(12345);
        bits.push((seed >> 16) & 1 == 1);
    }
    let octets = bit_string_to_octet_string(&bits).unwrap();
    assert_eq!(octets.len(), 8);
    assert_eq!(octet_string_to_bit_string(&octets), bits);
}
