//! The variable-length code tables of CAVLC residual coding as the
//! standard writes them: each code with its length and its bits, most
//! significant first (Tables 9-5 and 9-7 to 9-10).
use crate::cavlc::{ct_bits, ct_len, rb_bits, rb_len, tz_bits, tz_len, tzc_bits, tzc_len};
use vstd::prelude::*;

verus! {

/// Table 9-5: the `coeff_token` codes for `nC` in `0..2`, `2..4`, `4..8`,
/// `8..`, -1 and -2 (columns 0 to 5), by `4 * TotalCoeff + TrailingOnes`;
/// length 0 where the table has no code.
pub proof fn lemma_coeff_token_table_9_5()
    ensures
        ct_len(0) == seq![1u8, 0u8, 0u8, 0u8, 6u8, 2u8, 0u8, 0u8, 8u8, 6u8, 3u8, 0u8, 9u8, 8u8, 7u8, 5u8, 10u8, 9u8, 8u8, 6u8, 11u8, 10u8, 9u8, 7u8, 13u8, 11u8, 10u8, 8u8, 13u8, 13u8, 11u8, 9u8, 13u8, 13u8, 13u8, 10u8, 14u8, 14u8, 13u8, 11u8, 14u8, 14u8, 14u8, 13u8, 15u8, 15u8, 14u8, 14u8, 15u8, 15u8, 15u8, 14u8, 16u8, 15u8, 15u8, 15u8, 16u8, 16u8, 16u8, 15u8, 16u8, 16u8, 16u8, 16u8, 16u8, 16u8, 16u8, 16u8],
        ct_bits(0) == seq![0b1u16, 0u16, 0u16, 0u16, 0b000101u16, 0b01u16, 0u16, 0u16, 0b00000111u16, 0b000100u16, 0b001u16, 0u16, 0b000000111u16, 0b00000110u16, 0b0000101u16, 0b00011u16, 0b0000000111u16, 0b000000110u16, 0b00000101u16, 0b000011u16, 0b00000000111u16, 0b0000000110u16, 0b000000101u16, 0b0000100u16, 0b0000000001111u16, 0b00000000110u16, 0b0000000101u16, 0b00000100u16, 0b0000000001011u16, 0b0000000001110u16, 0b00000000101u16, 0b000000100u16, 0b0000000001000u16, 0b0000000001010u16, 0b0000000001101u16, 0b0000000100u16, 0b00000000001111u16, 0b00000000001110u16, 0b0000000001001u16, 0b00000000100u16, 0b00000000001011u16, 0b00000000001010u16, 0b00000000001101u16, 0b0000000001100u16, 0b000000000001111u16, 0b000000000001110u16, 0b00000000001001u16, 0b00000000001100u16, 0b000000000001011u16, 0b000000000001010u16, 0b000000000001101u16, 0b00000000001000u16, 0b0000000000001111u16, 0b000000000000001u16, 0b000000000001001u16, 0b000000000001100u16, 0b0000000000001011u16, 0b0000000000001110u16, 0b0000000000001101u16, 0b000000000001000u16, 0b0000000000000111u16, 0b0000000000001010u16, 0b0000000000001001u16, 0b0000000000001100u16, 0b0000000000000100u16, 0b0000000000000110u16, 0b0000000000000101u16, 0b0000000000001000u16],
        ct_len(1) == seq![2u8, 0u8, 0u8, 0u8, 6u8, 2u8, 0u8, 0u8, 6u8, 5u8, 3u8, 0u8, 7u8, 6u8, 6u8, 4u8, 8u8, 6u8, 6u8, 4u8, 8u8, 7u8, 7u8, 5u8, 9u8, 8u8, 8u8, 6u8, 11u8, 9u8, 9u8, 6u8, 11u8, 11u8, 11u8, 7u8, 12u8, 11u8, 11u8, 9u8, 12u8, 12u8, 12u8, 11u8, 12u8, 12u8, 12u8, 11u8, 13u8, 13u8, 13u8, 12u8, 13u8, 13u8, 13u8, 13u8, 13u8, 14u8, 13u8, 13u8, 14u8, 14u8, 14u8, 13u8, 14u8, 14u8, 14u8, 14u8],
        ct_bits(1) == seq![0b11u16, 0u16, 0u16, 0u16, 0b001011u16, 0b10u16, 0u16, 0u16, 0b000111u16, 0b00111u16, 0b011u16, 0u16, 0b0000111u16, 0b001010u16, 0b001001u16, 0b0101u16, 0b00000111u16, 0b000110u16, 0b000101u16, 0b0100u16, 0b00000100u16, 0b0000110u16, 0b0000101u16, 0b00110u16, 0b000000111u16, 0b00000110u16, 0b00000101u16, 0b001000u16, 0b00000001111u16, 0b000000110u16, 0b000000101u16, 0b000100u16, 0b00000001011u16, 0b00000001110u16, 0b00000001101u16, 0b0000100u16, 0b000000001111u16, 0b00000001010u16, 0b00000001001u16, 0b000000100u16, 0b000000001011u16, 0b000000001110u16, 0b000000001101u16, 0b00000001100u16, 0b000000001000u16, 0b000000001010u16, 0b000000001001u16, 0b00000001000u16, 0b0000000001111u16, 0b0000000001110u16, 0b0000000001101u16, 0b000000001100u16, 0b0000000001011u16, 0b0000000001010u16, 0b0000000001001u16, 0b0000000001100u16, 0b0000000000111u16, 0b00000000001011u16, 0b0000000000110u16, 0b0000000001000u16, 0b00000000001001u16, 0b00000000001000u16, 0b00000000001010u16, 0b0000000000001u16, 0b00000000000111u16, 0b00000000000110u16, 0b00000000000101u16, 0b00000000000100u16],
        ct_len(2) == seq![4u8, 0u8, 0u8, 0u8, 6u8, 4u8, 0u8, 0u8, 6u8, 5u8, 4u8, 0u8, 6u8, 5u8, 5u8, 4u8, 7u8, 5u8, 5u8, 4u8, 7u8, 5u8, 5u8, 4u8, 7u8, 6u8, 6u8, 4u8, 7u8, 6u8, 6u8, 4u8, 8u8, 7u8, 7u8, 5u8, 8u8, 8u8, 7u8, 6u8, 9u8, 8u8, 8u8, 7u8, 9u8, 9u8, 8u8, 8u8, 9u8, 9u8, 9u8, 8u8, 10u8, 9u8, 9u8, 9u8, 10u8, 10u8, 10u8, 10u8, 10u8, 10u8, 10u8, 10u8, 10u8, 10u8, 10u8, 10u8],
        ct_bits(2) == seq![0b1111u16, 0u16, 0u16, 0u16, 0b001111u16, 0b1110u16, 0u16, 0u16, 0b001011u16, 0b01111u16, 0b1101u16, 0u16, 0b001000u16, 0b01100u16, 0b01110u16, 0b1100u16, 0b0001111u16, 0b01010u16, 0b01011u16, 0b1011u16, 0b0001011u16, 0b01000u16, 0b01001u16, 0b1010u16, 0b0001001u16, 0b001110u16, 0b001101u16, 0b1001u16, 0b0001000u16, 0b001010u16, 0b001001u16, 0b1000u16, 0b00001111u16, 0b0001110u16, 0b0001101u16, 0b01101u16, 0b00001011u16, 0b00001110u16, 0b0001010u16, 0b001100u16, 0b000001111u16, 0b00001010u16, 0b00001101u16, 0b0001100u16, 0b000001011u16, 0b000001110u16, 0b00001001u16, 0b00001100u16, 0b000001000u16, 0b000001010u16, 0b000001101u16, 0b00001000u16, 0b0000001101u16, 0b000000111u16, 0b000001001u16, 0b000001100u16, 0b0000001001u16, 0b0000001100u16, 0b0000001011u16, 0b0000001010u16, 0b0000000101u16, 0b0000001000u16, 0b0000000111u16, 0b0000000110u16, 0b0000000001u16, 0b0000000100u16, 0b0000000011u16, 0b0000000010u16],
        ct_len(3) == seq![6u8, 0u8, 0u8, 0u8, 6u8, 6u8, 0u8, 0u8, 6u8, 6u8, 6u8, 0u8, 6u8, 6u8, 6u8, 6u8, 6u8, 6u8, 6u8, 6u8, 6u8, 6u8, 6u8, 6u8, 6u8, 6u8, 6u8, 6u8, 6u8, 6u8, 6u8, 6u8, 6u8, 6u8, 6u8, 6u8, 6u8, 6u8, 6u8, 6u8, 6u8, 6u8, 6u8, 6u8, 6u8, 6u8, 6u8, 6u8, 6u8, 6u8, 6u8, 6u8, 6u8, 6u8, 6u8, 6u8, 6u8, 6u8, 6u8, 6u8, 6u8, 6u8, 6u8, 6u8, 6u8, 6u8, 6u8, 6u8],
        ct_bits(3) == seq![0b000011u16, 0u16, 0u16, 0u16, 0b000000u16, 0b000001u16, 0u16, 0u16, 0b000100u16, 0b000101u16, 0b000110u16, 0u16, 0b001000u16, 0b001001u16, 0b001010u16, 0b001011u16, 0b001100u16, 0b001101u16, 0b001110u16, 0b001111u16, 0b010000u16, 0b010001u16, 0b010010u16, 0b010011u16, 0b010100u16, 0b010101u16, 0b010110u16, 0b010111u16, 0b011000u16, 0b011001u16, 0b011010u16, 0b011011u16, 0b011100u16, 0b011101u16, 0b011110u16, 0b011111u16, 0b100000u16, 0b100001u16, 0b100010u16, 0b100011u16, 0b100100u16, 0b100101u16, 0b100110u16, 0b100111u16, 0b101000u16, 0b101001u16, 0b101010u16, 0b101011u16, 0b101100u16, 0b101101u16, 0b101110u16, 0b101111u16, 0b110000u16, 0b110001u16, 0b110010u16, 0b110011u16, 0b110100u16, 0b110101u16, 0b110110u16, 0b110111u16, 0b111000u16, 0b111001u16, 0b111010u16, 0b111011u16, 0b111100u16, 0b111101u16, 0b111110u16, 0b111111u16],
        ct_len(4) == seq![2u8, 0u8, 0u8, 0u8, 6u8, 1u8, 0u8, 0u8, 6u8, 6u8, 3u8, 0u8, 6u8, 7u8, 7u8, 6u8, 6u8, 8u8, 8u8, 7u8, 0u8, 0u8, 0u8, 0u8, 0u8, 0u8, 0u8, 0u8, 0u8, 0u8, 0u8, 0u8, 0u8, 0u8, 0u8, 0u8, 0u8, 0u8, 0u8, 0u8, 0u8, 0u8, 0u8, 0u8, 0u8, 0u8, 0u8, 0u8, 0u8, 0u8, 0u8, 0u8, 0u8, 0u8, 0u8, 0u8, 0u8, 0u8, 0u8, 0u8, 0u8, 0u8, 0u8, 0u8, 0u8, 0u8, 0u8, 0u8],
        ct_bits(4) == seq![0b01u16, 0u16, 0u16, 0u16, 0b000111u16, 0b1u16, 0u16, 0u16, 0b000100u16, 0b000110u16, 0b001u16, 0u16, 0b000011u16, 0b0000011u16, 0b0000010u16, 0b000101u16, 0b000010u16, 0b00000011u16, 0b00000010u16, 0b0000000u16, 0u16, 0u16, 0u16, 0u16, 0u16, 0u16, 0u16, 0u16, 0u16, 0u16, 0u16, 0u16, 0u16, 0u16, 0u16, 0u16, 0u16, 0u16, 0u16, 0u16, 0u16, 0u16, 0u16, 0u16, 0u16, 0u16, 0u16, 0u16, 0u16, 0u16, 0u16, 0u16, 0u16, 0u16, 0u16, 0u16, 0u16, 0u16, 0u16, 0u16, 0u16, 0u16, 0u16, 0u16, 0u16, 0u16, 0u16, 0u16],
        ct_len(5) == seq![1u8, 0u8, 0u8, 0u8, 7u8, 2u8, 0u8, 0u8, 7u8, 7u8, 3u8, 0u8, 9u8, 7u8, 7u8, 5u8, 9u8, 9u8, 7u8, 6u8, 10u8, 10u8, 9u8, 7u8, 11u8, 11u8, 10u8, 7u8, 12u8, 12u8, 11u8, 10u8, 13u8, 12u8, 12u8, 11u8, 0u8, 0u8, 0u8, 0u8, 0u8, 0u8, 0u8, 0u8, 0u8, 0u8, 0u8, 0u8, 0u8, 0u8, 0u8, 0u8, 0u8, 0u8, 0u8, 0u8, 0u8, 0u8, 0u8, 0u8, 0u8, 0u8, 0u8, 0u8, 0u8, 0u8, 0u8, 0u8],
        ct_bits(5) == seq![0b1u16, 0u16, 0u16, 0u16, 0b0001111u16, 0b01u16, 0u16, 0u16, 0b0001110u16, 0b0001101u16, 0b001u16, 0u16, 0b000000111u16, 0b0001100u16, 0b0001011u16, 0b00001u16, 0b000000110u16, 0b000000101u16, 0b0001010u16, 0b000001u16, 0b0000000111u16, 0b0000000110u16, 0b000000100u16, 0b0001001u16, 0b00000000111u16, 0b00000000110u16, 0b0000000101u16, 0b0001000u16, 0b000000000111u16, 0b000000000110u16, 0b00000000101u16, 0b0000000100u16, 0b0000000000111u16, 0b000000000101u16, 0b000000000100u16, 0b00000000100u16, 0u16, 0u16, 0u16, 0u16, 0u16, 0u16, 0u16, 0u16, 0u16, 0u16, 0u16, 0u16, 0u16, 0u16, 0u16, 0u16, 0u16, 0u16, 0u16, 0u16, 0u16, 0u16, 0u16, 0u16, 0u16, 0u16, 0u16, 0u16, 0u16, 0u16, 0u16, 0u16],
{
    assert(ct_len(0) =~= seq![1u8, 0u8, 0u8, 0u8, 6u8, 2u8, 0u8, 0u8, 8u8, 6u8, 3u8, 0u8, 9u8, 8u8, 7u8, 5u8, 10u8, 9u8, 8u8, 6u8, 11u8, 10u8, 9u8, 7u8, 13u8, 11u8, 10u8, 8u8, 13u8, 13u8, 11u8, 9u8, 13u8, 13u8, 13u8, 10u8, 14u8, 14u8, 13u8, 11u8, 14u8, 14u8, 14u8, 13u8, 15u8, 15u8, 14u8, 14u8, 15u8, 15u8, 15u8, 14u8, 16u8, 15u8, 15u8, 15u8, 16u8, 16u8, 16u8, 15u8, 16u8, 16u8, 16u8, 16u8, 16u8, 16u8, 16u8, 16u8]);
    assert(ct_bits(0) =~= seq![0b1u16, 0u16, 0u16, 0u16, 0b000101u16, 0b01u16, 0u16, 0u16, 0b00000111u16, 0b000100u16, 0b001u16, 0u16, 0b000000111u16, 0b00000110u16, 0b0000101u16, 0b00011u16, 0b0000000111u16, 0b000000110u16, 0b00000101u16, 0b000011u16, 0b00000000111u16, 0b0000000110u16, 0b000000101u16, 0b0000100u16, 0b0000000001111u16, 0b00000000110u16, 0b0000000101u16, 0b00000100u16, 0b0000000001011u16, 0b0000000001110u16, 0b00000000101u16, 0b000000100u16, 0b0000000001000u16, 0b0000000001010u16, 0b0000000001101u16, 0b0000000100u16, 0b00000000001111u16, 0b00000000001110u16, 0b0000000001001u16, 0b00000000100u16, 0b00000000001011u16, 0b00000000001010u16, 0b00000000001101u16, 0b0000000001100u16, 0b000000000001111u16, 0b000000000001110u16, 0b00000000001001u16, 0b00000000001100u16, 0b000000000001011u16, 0b000000000001010u16, 0b000000000001101u16, 0b00000000001000u16, 0b0000000000001111u16, 0b000000000000001u16, 0b000000000001001u16, 0b000000000001100u16, 0b0000000000001011u16, 0b0000000000001110u16, 0b0000000000001101u16, 0b000000000001000u16, 0b0000000000000111u16, 0b0000000000001010u16, 0b0000000000001001u16, 0b0000000000001100u16, 0b0000000000000100u16, 0b0000000000000110u16, 0b0000000000000101u16, 0b0000000000001000u16]);
    assert(ct_len(1) =~= seq![2u8, 0u8, 0u8, 0u8, 6u8, 2u8, 0u8, 0u8, 6u8, 5u8, 3u8, 0u8, 7u8, 6u8, 6u8, 4u8, 8u8, 6u8, 6u8, 4u8, 8u8, 7u8, 7u8, 5u8, 9u8, 8u8, 8u8, 6u8, 11u8, 9u8, 9u8, 6u8, 11u8, 11u8, 11u8, 7u8, 12u8, 11u8, 11u8, 9u8, 12u8, 12u8, 12u8, 11u8, 12u8, 12u8, 12u8, 11u8, 13u8, 13u8, 13u8, 12u8, 13u8, 13u8, 13u8, 13u8, 13u8, 14u8, 13u8, 13u8, 14u8, 14u8, 14u8, 13u8, 14u8, 14u8, 14u8, 14u8]);
    assert(ct_bits(1) =~= seq![0b11u16, 0u16, 0u16, 0u16, 0b001011u16, 0b10u16, 0u16, 0u16, 0b000111u16, 0b00111u16, 0b011u16, 0u16, 0b0000111u16, 0b001010u16, 0b001001u16, 0b0101u16, 0b00000111u16, 0b000110u16, 0b000101u16, 0b0100u16, 0b00000100u16, 0b0000110u16, 0b0000101u16, 0b00110u16, 0b000000111u16, 0b00000110u16, 0b00000101u16, 0b001000u16, 0b00000001111u16, 0b000000110u16, 0b000000101u16, 0b000100u16, 0b00000001011u16, 0b00000001110u16, 0b00000001101u16, 0b0000100u16, 0b000000001111u16, 0b00000001010u16, 0b00000001001u16, 0b000000100u16, 0b000000001011u16, 0b000000001110u16, 0b000000001101u16, 0b00000001100u16, 0b000000001000u16, 0b000000001010u16, 0b000000001001u16, 0b00000001000u16, 0b0000000001111u16, 0b0000000001110u16, 0b0000000001101u16, 0b000000001100u16, 0b0000000001011u16, 0b0000000001010u16, 0b0000000001001u16, 0b0000000001100u16, 0b0000000000111u16, 0b00000000001011u16, 0b0000000000110u16, 0b0000000001000u16, 0b00000000001001u16, 0b00000000001000u16, 0b00000000001010u16, 0b0000000000001u16, 0b00000000000111u16, 0b00000000000110u16, 0b00000000000101u16, 0b00000000000100u16]);
    assert(ct_len(2) =~= seq![4u8, 0u8, 0u8, 0u8, 6u8, 4u8, 0u8, 0u8, 6u8, 5u8, 4u8, 0u8, 6u8, 5u8, 5u8, 4u8, 7u8, 5u8, 5u8, 4u8, 7u8, 5u8, 5u8, 4u8, 7u8, 6u8, 6u8, 4u8, 7u8, 6u8, 6u8, 4u8, 8u8, 7u8, 7u8, 5u8, 8u8, 8u8, 7u8, 6u8, 9u8, 8u8, 8u8, 7u8, 9u8, 9u8, 8u8, 8u8, 9u8, 9u8, 9u8, 8u8, 10u8, 9u8, 9u8, 9u8, 10u8, 10u8, 10u8, 10u8, 10u8, 10u8, 10u8, 10u8, 10u8, 10u8, 10u8, 10u8]);
    assert(ct_bits(2) =~= seq![0b1111u16, 0u16, 0u16, 0u16, 0b001111u16, 0b1110u16, 0u16, 0u16, 0b001011u16, 0b01111u16, 0b1101u16, 0u16, 0b001000u16, 0b01100u16, 0b01110u16, 0b1100u16, 0b0001111u16, 0b01010u16, 0b01011u16, 0b1011u16, 0b0001011u16, 0b01000u16, 0b01001u16, 0b1010u16, 0b0001001u16, 0b001110u16, 0b001101u16, 0b1001u16, 0b0001000u16, 0b001010u16, 0b001001u16, 0b1000u16, 0b00001111u16, 0b0001110u16, 0b0001101u16, 0b01101u16, 0b00001011u16, 0b00001110u16, 0b0001010u16, 0b001100u16, 0b000001111u16, 0b00001010u16, 0b00001101u16, 0b0001100u16, 0b000001011u16, 0b000001110u16, 0b00001001u16, 0b00001100u16, 0b000001000u16, 0b000001010u16, 0b000001101u16, 0b00001000u16, 0b0000001101u16, 0b000000111u16, 0b000001001u16, 0b000001100u16, 0b0000001001u16, 0b0000001100u16, 0b0000001011u16, 0b0000001010u16, 0b0000000101u16, 0b0000001000u16, 0b0000000111u16, 0b0000000110u16, 0b0000000001u16, 0b0000000100u16, 0b0000000011u16, 0b0000000010u16]);
    assert(ct_len(3) =~= seq![6u8, 0u8, 0u8, 0u8, 6u8, 6u8, 0u8, 0u8, 6u8, 6u8, 6u8, 0u8, 6u8, 6u8, 6u8, 6u8, 6u8, 6u8, 6u8, 6u8, 6u8, 6u8, 6u8, 6u8, 6u8, 6u8, 6u8, 6u8, 6u8, 6u8, 6u8, 6u8, 6u8, 6u8, 6u8, 6u8, 6u8, 6u8, 6u8, 6u8, 6u8, 6u8, 6u8, 6u8, 6u8, 6u8, 6u8, 6u8, 6u8, 6u8, 6u8, 6u8, 6u8, 6u8, 6u8, 6u8, 6u8, 6u8, 6u8, 6u8, 6u8, 6u8, 6u8, 6u8, 6u8, 6u8, 6u8, 6u8]);
    assert(ct_bits(3) =~= seq![0b000011u16, 0u16, 0u16, 0u16, 0b000000u16, 0b000001u16, 0u16, 0u16, 0b000100u16, 0b000101u16, 0b000110u16, 0u16, 0b001000u16, 0b001001u16, 0b001010u16, 0b001011u16, 0b001100u16, 0b001101u16, 0b001110u16, 0b001111u16, 0b010000u16, 0b010001u16, 0b010010u16, 0b010011u16, 0b010100u16, 0b010101u16, 0b010110u16, 0b010111u16, 0b011000u16, 0b011001u16, 0b011010u16, 0b011011u16, 0b011100u16, 0b011101u16, 0b011110u16, 0b011111u16, 0b100000u16, 0b100001u16, 0b100010u16, 0b100011u16, 0b100100u16, 0b100101u16, 0b100110u16, 0b100111u16, 0b101000u16, 0b101001u16, 0b101010u16, 0b101011u16, 0b101100u16, 0b101101u16, 0b101110u16, 0b101111u16, 0b110000u16, 0b110001u16, 0b110010u16, 0b110011u16, 0b110100u16, 0b110101u16, 0b110110u16, 0b110111u16, 0b111000u16, 0b111001u16, 0b111010u16, 0b111011u16, 0b111100u16, 0b111101u16, 0b111110u16, 0b111111u16]);
    assert(ct_len(4) =~= seq![2u8, 0u8, 0u8, 0u8, 6u8, 1u8, 0u8, 0u8, 6u8, 6u8, 3u8, 0u8, 6u8, 7u8, 7u8, 6u8, 6u8, 8u8, 8u8, 7u8, 0u8, 0u8, 0u8, 0u8, 0u8, 0u8, 0u8, 0u8, 0u8, 0u8, 0u8, 0u8, 0u8, 0u8, 0u8, 0u8, 0u8, 0u8, 0u8, 0u8, 0u8, 0u8, 0u8, 0u8, 0u8, 0u8, 0u8, 0u8, 0u8, 0u8, 0u8, 0u8, 0u8, 0u8, 0u8, 0u8, 0u8, 0u8, 0u8, 0u8, 0u8, 0u8, 0u8, 0u8, 0u8, 0u8, 0u8, 0u8]);
    assert(ct_bits(4) =~= seq![0b01u16, 0u16, 0u16, 0u16, 0b000111u16, 0b1u16, 0u16, 0u16, 0b000100u16, 0b000110u16, 0b001u16, 0u16, 0b000011u16, 0b0000011u16, 0b0000010u16, 0b000101u16, 0b000010u16, 0b00000011u16, 0b00000010u16, 0b0000000u16, 0u16, 0u16, 0u16, 0u16, 0u16, 0u16, 0u16, 0u16, 0u16, 0u16, 0u16, 0u16, 0u16, 0u16, 0u16, 0u16, 0u16, 0u16, 0u16, 0u16, 0u16, 0u16, 0u16, 0u16, 0u16, 0u16, 0u16, 0u16, 0u16, 0u16, 0u16, 0u16, 0u16, 0u16, 0u16, 0u16, 0u16, 0u16, 0u16, 0u16, 0u16, 0u16, 0u16, 0u16, 0u16, 0u16, 0u16, 0u16]);
    assert(ct_len(5) =~= seq![1u8, 0u8, 0u8, 0u8, 7u8, 2u8, 0u8, 0u8, 7u8, 7u8, 3u8, 0u8, 9u8, 7u8, 7u8, 5u8, 9u8, 9u8, 7u8, 6u8, 10u8, 10u8, 9u8, 7u8, 11u8, 11u8, 10u8, 7u8, 12u8, 12u8, 11u8, 10u8, 13u8, 12u8, 12u8, 11u8, 0u8, 0u8, 0u8, 0u8, 0u8, 0u8, 0u8, 0u8, 0u8, 0u8, 0u8, 0u8, 0u8, 0u8, 0u8, 0u8, 0u8, 0u8, 0u8, 0u8, 0u8, 0u8, 0u8, 0u8, 0u8, 0u8, 0u8, 0u8, 0u8, 0u8, 0u8, 0u8]);
    assert(ct_bits(5) =~= seq![0b1u16, 0u16, 0u16, 0u16, 0b0001111u16, 0b01u16, 0u16, 0u16, 0b0001110u16, 0b0001101u16, 0b001u16, 0u16, 0b000000111u16, 0b0001100u16, 0b0001011u16, 0b00001u16, 0b000000110u16, 0b000000101u16, 0b0001010u16, 0b000001u16, 0b0000000111u16, 0b0000000110u16, 0b000000100u16, 0b0001001u16, 0b00000000111u16, 0b00000000110u16, 0b0000000101u16, 0b0001000u16, 0b000000000111u16, 0b000000000110u16, 0b00000000101u16, 0b0000000100u16, 0b0000000000111u16, 0b000000000101u16, 0b000000000100u16, 0b00000000100u16, 0u16, 0u16, 0u16, 0u16, 0u16, 0u16, 0u16, 0u16, 0u16, 0u16, 0u16, 0u16, 0u16, 0u16, 0u16, 0u16, 0u16, 0u16, 0u16, 0u16, 0u16, 0u16, 0u16, 0u16, 0u16, 0u16, 0u16, 0u16, 0u16, 0u16, 0u16, 0u16]);
}

/// Tables 9-7 and 9-8: the `total_zeros` codes of 4x4 blocks for
/// `tzVlcIndex` 1 to 15, by `total_zeros`.
pub proof fn lemma_total_zeros_tables_9_7_9_8()
    ensures
        tz_len(1) == seq![1u8, 3u8, 3u8, 4u8, 4u8, 5u8, 5u8, 6u8, 6u8, 7u8, 7u8, 8u8, 8u8, 9u8, 9u8, 9u8],
        tz_bits(1) == seq![0b1u16, 0b011u16, 0b010u16, 0b0011u16, 0b0010u16, 0b00011u16, 0b00010u16, 0b000011u16, 0b000010u16, 0b0000011u16, 0b0000010u16, 0b00000011u16, 0b00000010u16, 0b000000011u16, 0b000000010u16, 0b000000001u16],
        tz_len(2) == seq![3u8, 3u8, 3u8, 3u8, 3u8, 4u8, 4u8, 4u8, 4u8, 5u8, 5u8, 6u8, 6u8, 6u8, 6u8, 0u8],
        tz_bits(2) == seq![0b111u16, 0b110u16, 0b101u16, 0b100u16, 0b011u16, 0b0101u16, 0b0100u16, 0b0011u16, 0b0010u16, 0b00011u16, 0b00010u16, 0b000011u16, 0b000010u16, 0b000001u16, 0b000000u16, 0u16],
        tz_len(3) == seq![4u8, 3u8, 3u8, 3u8, 4u8, 4u8, 3u8, 3u8, 4u8, 5u8, 5u8, 6u8, 5u8, 6u8, 0u8, 0u8],
        tz_bits(3) == seq![0b0101u16, 0b111u16, 0b110u16, 0b101u16, 0b0100u16, 0b0011u16, 0b100u16, 0b011u16, 0b0010u16, 0b00011u16, 0b00010u16, 0b000001u16, 0b00001u16, 0b000000u16, 0u16, 0u16],
        tz_len(4) == seq![5u8, 3u8, 4u8, 4u8, 3u8, 3u8, 3u8, 4u8, 3u8, 4u8, 5u8, 5u8, 5u8, 0u8, 0u8, 0u8],
        tz_bits(4) == seq![0b00011u16, 0b111u16, 0b0101u16, 0b0100u16, 0b110u16, 0b101u16, 0b100u16, 0b0011u16, 0b011u16, 0b0010u16, 0b00010u16, 0b00001u16, 0b00000u16, 0u16, 0u16, 0u16],
        tz_len(5) == seq![4u8, 4u8, 4u8, 3u8, 3u8, 3u8, 3u8, 3u8, 4u8, 5u8, 4u8, 5u8, 0u8, 0u8, 0u8, 0u8],
        tz_bits(5) == seq![0b0101u16, 0b0100u16, 0b0011u16, 0b111u16, 0b110u16, 0b101u16, 0b100u16, 0b011u16, 0b0010u16, 0b00001u16, 0b0001u16, 0b00000u16, 0u16, 0u16, 0u16, 0u16],
        tz_len(6) == seq![6u8, 5u8, 3u8, 3u8, 3u8, 3u8, 3u8, 3u8, 4u8, 3u8, 6u8, 0u8, 0u8, 0u8, 0u8, 0u8],
        tz_bits(6) == seq![0b000001u16, 0b00001u16, 0b111u16, 0b110u16, 0b101u16, 0b100u16, 0b011u16, 0b010u16, 0b0001u16, 0b001u16, 0b000000u16, 0u16, 0u16, 0u16, 0u16, 0u16],
        tz_len(7) == seq![6u8, 5u8, 3u8, 3u8, 3u8, 2u8, 3u8, 4u8, 3u8, 6u8, 0u8, 0u8, 0u8, 0u8, 0u8, 0u8],
        tz_bits(7) == seq![0b000001u16, 0b00001u16, 0b101u16, 0b100u16, 0b011u16, 0b11u16, 0b010u16, 0b0001u16, 0b001u16, 0b000000u16, 0u16, 0u16, 0u16, 0u16, 0u16, 0u16],
        tz_len(8) == seq![6u8, 4u8, 5u8, 3u8, 2u8, 2u8, 3u8, 3u8, 6u8, 0u8, 0u8, 0u8, 0u8, 0u8, 0u8, 0u8],
        tz_bits(8) == seq![0b000001u16, 0b0001u16, 0b00001u16, 0b011u16, 0b11u16, 0b10u16, 0b010u16, 0b001u16, 0b000000u16, 0u16, 0u16, 0u16, 0u16, 0u16, 0u16, 0u16],
        tz_len(9) == seq![6u8, 6u8, 4u8, 2u8, 2u8, 3u8, 2u8, 5u8, 0u8, 0u8, 0u8, 0u8, 0u8, 0u8, 0u8, 0u8],
        tz_bits(9) == seq![0b000001u16, 0b000000u16, 0b0001u16, 0b11u16, 0b10u16, 0b001u16, 0b01u16, 0b00001u16, 0u16, 0u16, 0u16, 0u16, 0u16, 0u16, 0u16, 0u16],
        tz_len(10) == seq![5u8, 5u8, 3u8, 2u8, 2u8, 2u8, 4u8, 0u8, 0u8, 0u8, 0u8, 0u8, 0u8, 0u8, 0u8, 0u8],
        tz_bits(10) == seq![0b00001u16, 0b00000u16, 0b001u16, 0b11u16, 0b10u16, 0b01u16, 0b0001u16, 0u16, 0u16, 0u16, 0u16, 0u16, 0u16, 0u16, 0u16, 0u16],
        tz_len(11) == seq![4u8, 4u8, 3u8, 3u8, 1u8, 3u8, 0u8, 0u8, 0u8, 0u8, 0u8, 0u8, 0u8, 0u8, 0u8, 0u8],
        tz_bits(11) == seq![0b0000u16, 0b0001u16, 0b001u16, 0b010u16, 0b1u16, 0b011u16, 0u16, 0u16, 0u16, 0u16, 0u16, 0u16, 0u16, 0u16, 0u16, 0u16],
        tz_len(12) == seq![4u8, 4u8, 2u8, 1u8, 3u8, 0u8, 0u8, 0u8, 0u8, 0u8, 0u8, 0u8, 0u8, 0u8, 0u8, 0u8],
        tz_bits(12) == seq![0b0000u16, 0b0001u16, 0b01u16, 0b1u16, 0b001u16, 0u16, 0u16, 0u16, 0u16, 0u16, 0u16, 0u16, 0u16, 0u16, 0u16, 0u16],
        tz_len(13) == seq![3u8, 3u8, 1u8, 2u8, 0u8, 0u8, 0u8, 0u8, 0u8, 0u8, 0u8, 0u8, 0u8, 0u8, 0u8, 0u8],
        tz_bits(13) == seq![0b000u16, 0b001u16, 0b1u16, 0b01u16, 0u16, 0u16, 0u16, 0u16, 0u16, 0u16, 0u16, 0u16, 0u16, 0u16, 0u16, 0u16],
        tz_len(14) == seq![2u8, 2u8, 1u8, 0u8, 0u8, 0u8, 0u8, 0u8, 0u8, 0u8, 0u8, 0u8, 0u8, 0u8, 0u8, 0u8],
        tz_bits(14) == seq![0b00u16, 0b01u16, 0b1u16, 0u16, 0u16, 0u16, 0u16, 0u16, 0u16, 0u16, 0u16, 0u16, 0u16, 0u16, 0u16, 0u16],
        tz_len(15) == seq![1u8, 1u8, 0u8, 0u8, 0u8, 0u8, 0u8, 0u8, 0u8, 0u8, 0u8, 0u8, 0u8, 0u8, 0u8, 0u8],
        tz_bits(15) == seq![0b0u16, 0b1u16, 0u16, 0u16, 0u16, 0u16, 0u16, 0u16, 0u16, 0u16, 0u16, 0u16, 0u16, 0u16, 0u16, 0u16],
{
    assert(tz_len(1) =~= seq![1u8, 3u8, 3u8, 4u8, 4u8, 5u8, 5u8, 6u8, 6u8, 7u8, 7u8, 8u8, 8u8, 9u8, 9u8, 9u8]);
    assert(tz_bits(1) =~= seq![0b1u16, 0b011u16, 0b010u16, 0b0011u16, 0b0010u16, 0b00011u16, 0b00010u16, 0b000011u16, 0b000010u16, 0b0000011u16, 0b0000010u16, 0b00000011u16, 0b00000010u16, 0b000000011u16, 0b000000010u16, 0b000000001u16]);
    assert(tz_len(2) =~= seq![3u8, 3u8, 3u8, 3u8, 3u8, 4u8, 4u8, 4u8, 4u8, 5u8, 5u8, 6u8, 6u8, 6u8, 6u8, 0u8]);
    assert(tz_bits(2) =~= seq![0b111u16, 0b110u16, 0b101u16, 0b100u16, 0b011u16, 0b0101u16, 0b0100u16, 0b0011u16, 0b0010u16, 0b00011u16, 0b00010u16, 0b000011u16, 0b000010u16, 0b000001u16, 0b000000u16, 0u16]);
    assert(tz_len(3) =~= seq![4u8, 3u8, 3u8, 3u8, 4u8, 4u8, 3u8, 3u8, 4u8, 5u8, 5u8, 6u8, 5u8, 6u8, 0u8, 0u8]);
    assert(tz_bits(3) =~= seq![0b0101u16, 0b111u16, 0b110u16, 0b101u16, 0b0100u16, 0b0011u16, 0b100u16, 0b011u16, 0b0010u16, 0b00011u16, 0b00010u16, 0b000001u16, 0b00001u16, 0b000000u16, 0u16, 0u16]);
    assert(tz_len(4) =~= seq![5u8, 3u8, 4u8, 4u8, 3u8, 3u8, 3u8, 4u8, 3u8, 4u8, 5u8, 5u8, 5u8, 0u8, 0u8, 0u8]);
    assert(tz_bits(4) =~= seq![0b00011u16, 0b111u16, 0b0101u16, 0b0100u16, 0b110u16, 0b101u16, 0b100u16, 0b0011u16, 0b011u16, 0b0010u16, 0b00010u16, 0b00001u16, 0b00000u16, 0u16, 0u16, 0u16]);
    assert(tz_len(5) =~= seq![4u8, 4u8, 4u8, 3u8, 3u8, 3u8, 3u8, 3u8, 4u8, 5u8, 4u8, 5u8, 0u8, 0u8, 0u8, 0u8]);
    assert(tz_bits(5) =~= seq![0b0101u16, 0b0100u16, 0b0011u16, 0b111u16, 0b110u16, 0b101u16, 0b100u16, 0b011u16, 0b0010u16, 0b00001u16, 0b0001u16, 0b00000u16, 0u16, 0u16, 0u16, 0u16]);
    assert(tz_len(6) =~= seq![6u8, 5u8, 3u8, 3u8, 3u8, 3u8, 3u8, 3u8, 4u8, 3u8, 6u8, 0u8, 0u8, 0u8, 0u8, 0u8]);
    assert(tz_bits(6) =~= seq![0b000001u16, 0b00001u16, 0b111u16, 0b110u16, 0b101u16, 0b100u16, 0b011u16, 0b010u16, 0b0001u16, 0b001u16, 0b000000u16, 0u16, 0u16, 0u16, 0u16, 0u16]);
    assert(tz_len(7) =~= seq![6u8, 5u8, 3u8, 3u8, 3u8, 2u8, 3u8, 4u8, 3u8, 6u8, 0u8, 0u8, 0u8, 0u8, 0u8, 0u8]);
    assert(tz_bits(7) =~= seq![0b000001u16, 0b00001u16, 0b101u16, 0b100u16, 0b011u16, 0b11u16, 0b010u16, 0b0001u16, 0b001u16, 0b000000u16, 0u16, 0u16, 0u16, 0u16, 0u16, 0u16]);
    assert(tz_len(8) =~= seq![6u8, 4u8, 5u8, 3u8, 2u8, 2u8, 3u8, 3u8, 6u8, 0u8, 0u8, 0u8, 0u8, 0u8, 0u8, 0u8]);
    assert(tz_bits(8) =~= seq![0b000001u16, 0b0001u16, 0b00001u16, 0b011u16, 0b11u16, 0b10u16, 0b010u16, 0b001u16, 0b000000u16, 0u16, 0u16, 0u16, 0u16, 0u16, 0u16, 0u16]);
    assert(tz_len(9) =~= seq![6u8, 6u8, 4u8, 2u8, 2u8, 3u8, 2u8, 5u8, 0u8, 0u8, 0u8, 0u8, 0u8, 0u8, 0u8, 0u8]);
    assert(tz_bits(9) =~= seq![0b000001u16, 0b000000u16, 0b0001u16, 0b11u16, 0b10u16, 0b001u16, 0b01u16, 0b00001u16, 0u16, 0u16, 0u16, 0u16, 0u16, 0u16, 0u16, 0u16]);
    assert(tz_len(10) =~= seq![5u8, 5u8, 3u8, 2u8, 2u8, 2u8, 4u8, 0u8, 0u8, 0u8, 0u8, 0u8, 0u8, 0u8, 0u8, 0u8]);
    assert(tz_bits(10) =~= seq![0b00001u16, 0b00000u16, 0b001u16, 0b11u16, 0b10u16, 0b01u16, 0b0001u16, 0u16, 0u16, 0u16, 0u16, 0u16, 0u16, 0u16, 0u16, 0u16]);
    assert(tz_len(11) =~= seq![4u8, 4u8, 3u8, 3u8, 1u8, 3u8, 0u8, 0u8, 0u8, 0u8, 0u8, 0u8, 0u8, 0u8, 0u8, 0u8]);
    assert(tz_bits(11) =~= seq![0b0000u16, 0b0001u16, 0b001u16, 0b010u16, 0b1u16, 0b011u16, 0u16, 0u16, 0u16, 0u16, 0u16, 0u16, 0u16, 0u16, 0u16, 0u16]);
    assert(tz_len(12) =~= seq![4u8, 4u8, 2u8, 1u8, 3u8, 0u8, 0u8, 0u8, 0u8, 0u8, 0u8, 0u8, 0u8, 0u8, 0u8, 0u8]);
    assert(tz_bits(12) =~= seq![0b0000u16, 0b0001u16, 0b01u16, 0b1u16, 0b001u16, 0u16, 0u16, 0u16, 0u16, 0u16, 0u16, 0u16, 0u16, 0u16, 0u16, 0u16]);
    assert(tz_len(13) =~= seq![3u8, 3u8, 1u8, 2u8, 0u8, 0u8, 0u8, 0u8, 0u8, 0u8, 0u8, 0u8, 0u8, 0u8, 0u8, 0u8]);
    assert(tz_bits(13) =~= seq![0b000u16, 0b001u16, 0b1u16, 0b01u16, 0u16, 0u16, 0u16, 0u16, 0u16, 0u16, 0u16, 0u16, 0u16, 0u16, 0u16, 0u16]);
    assert(tz_len(14) =~= seq![2u8, 2u8, 1u8, 0u8, 0u8, 0u8, 0u8, 0u8, 0u8, 0u8, 0u8, 0u8, 0u8, 0u8, 0u8, 0u8]);
    assert(tz_bits(14) =~= seq![0b00u16, 0b01u16, 0b1u16, 0u16, 0u16, 0u16, 0u16, 0u16, 0u16, 0u16, 0u16, 0u16, 0u16, 0u16, 0u16, 0u16]);
    assert(tz_len(15) =~= seq![1u8, 1u8, 0u8, 0u8, 0u8, 0u8, 0u8, 0u8, 0u8, 0u8, 0u8, 0u8, 0u8, 0u8, 0u8, 0u8]);
    assert(tz_bits(15) =~= seq![0b0u16, 0b1u16, 0u16, 0u16, 0u16, 0u16, 0u16, 0u16, 0u16, 0u16, 0u16, 0u16, 0u16, 0u16, 0u16, 0u16]);
}

/// Table 9-9 (a): the `total_zeros` codes of 4:2:0 chroma DC blocks for
/// `tzVlcIndex` 1 to 3, by `total_zeros`.
pub proof fn lemma_total_zeros_chroma_table_9_9()
    ensures
        tzc_len(1) == seq![1u8, 2u8, 3u8, 3u8],
        tzc_bits(1) == seq![0b1u16, 0b01u16, 0b001u16, 0b000u16],
        tzc_len(2) == seq![1u8, 2u8, 2u8, 0u8],
        tzc_bits(2) == seq![0b1u16, 0b01u16, 0b00u16, 0u16],
        tzc_len(3) == seq![1u8, 1u8, 0u8, 0u8],
        tzc_bits(3) == seq![0b1u16, 0b0u16, 0u16, 0u16],
{
    assert(tzc_len(1) =~= seq![1u8, 2u8, 3u8, 3u8]);
    assert(tzc_bits(1) =~= seq![0b1u16, 0b01u16, 0b001u16, 0b000u16]);
    assert(tzc_len(2) =~= seq![1u8, 2u8, 2u8, 0u8]);
    assert(tzc_bits(2) =~= seq![0b1u16, 0b01u16, 0b00u16, 0u16]);
    assert(tzc_len(3) =~= seq![1u8, 1u8, 0u8, 0u8]);
    assert(tzc_bits(3) =~= seq![0b1u16, 0b0u16, 0u16, 0u16]);
}

/// Table 9-10: the `run_before` codes for `zerosLeft` 1 to 6 and more
/// than 6 (column 7), by `run_before`.
pub proof fn lemma_run_before_table_9_10()
    ensures
        rb_len(1) == seq![1u8, 1u8, 0u8, 0u8, 0u8, 0u8, 0u8, 0u8, 0u8, 0u8, 0u8, 0u8, 0u8, 0u8, 0u8],
        rb_bits(1) == seq![0b1u16, 0b0u16, 0u16, 0u16, 0u16, 0u16, 0u16, 0u16, 0u16, 0u16, 0u16, 0u16, 0u16, 0u16, 0u16],
        rb_len(2) == seq![1u8, 2u8, 2u8, 0u8, 0u8, 0u8, 0u8, 0u8, 0u8, 0u8, 0u8, 0u8, 0u8, 0u8, 0u8],
        rb_bits(2) == seq![0b1u16, 0b01u16, 0b00u16, 0u16, 0u16, 0u16, 0u16, 0u16, 0u16, 0u16, 0u16, 0u16, 0u16, 0u16, 0u16],
        rb_len(3) == seq![2u8, 2u8, 2u8, 2u8, 0u8, 0u8, 0u8, 0u8, 0u8, 0u8, 0u8, 0u8, 0u8, 0u8, 0u8],
        rb_bits(3) == seq![0b11u16, 0b10u16, 0b01u16, 0b00u16, 0u16, 0u16, 0u16, 0u16, 0u16, 0u16, 0u16, 0u16, 0u16, 0u16, 0u16],
        rb_len(4) == seq![2u8, 2u8, 2u8, 3u8, 3u8, 0u8, 0u8, 0u8, 0u8, 0u8, 0u8, 0u8, 0u8, 0u8, 0u8],
        rb_bits(4) == seq![0b11u16, 0b10u16, 0b01u16, 0b001u16, 0b000u16, 0u16, 0u16, 0u16, 0u16, 0u16, 0u16, 0u16, 0u16, 0u16, 0u16],
        rb_len(5) == seq![2u8, 2u8, 3u8, 3u8, 3u8, 3u8, 0u8, 0u8, 0u8, 0u8, 0u8, 0u8, 0u8, 0u8, 0u8],
        rb_bits(5) == seq![0b11u16, 0b10u16, 0b011u16, 0b010u16, 0b001u16, 0b000u16, 0u16, 0u16, 0u16, 0u16, 0u16, 0u16, 0u16, 0u16, 0u16],
        rb_len(6) == seq![2u8, 3u8, 3u8, 3u8, 3u8, 3u8, 3u8, 0u8, 0u8, 0u8, 0u8, 0u8, 0u8, 0u8, 0u8],
        rb_bits(6) == seq![0b11u16, 0b000u16, 0b001u16, 0b011u16, 0b010u16, 0b101u16, 0b100u16, 0u16, 0u16, 0u16, 0u16, 0u16, 0u16, 0u16, 0u16],
        rb_len(7) == seq![3u8, 3u8, 3u8, 3u8, 3u8, 3u8, 3u8, 4u8, 5u8, 6u8, 7u8, 8u8, 9u8, 10u8, 11u8],
        rb_bits(7) == seq![0b111u16, 0b110u16, 0b101u16, 0b100u16, 0b011u16, 0b010u16, 0b001u16, 0b0001u16, 0b00001u16, 0b000001u16, 0b0000001u16, 0b00000001u16, 0b000000001u16, 0b0000000001u16, 0b00000000001u16],
{
    assert(rb_len(1) =~= seq![1u8, 1u8, 0u8, 0u8, 0u8, 0u8, 0u8, 0u8, 0u8, 0u8, 0u8, 0u8, 0u8, 0u8, 0u8]);
    assert(rb_bits(1) =~= seq![0b1u16, 0b0u16, 0u16, 0u16, 0u16, 0u16, 0u16, 0u16, 0u16, 0u16, 0u16, 0u16, 0u16, 0u16, 0u16]);
    assert(rb_len(2) =~= seq![1u8, 2u8, 2u8, 0u8, 0u8, 0u8, 0u8, 0u8, 0u8, 0u8, 0u8, 0u8, 0u8, 0u8, 0u8]);
    assert(rb_bits(2) =~= seq![0b1u16, 0b01u16, 0b00u16, 0u16, 0u16, 0u16, 0u16, 0u16, 0u16, 0u16, 0u16, 0u16, 0u16, 0u16, 0u16]);
    assert(rb_len(3) =~= seq![2u8, 2u8, 2u8, 2u8, 0u8, 0u8, 0u8, 0u8, 0u8, 0u8, 0u8, 0u8, 0u8, 0u8, 0u8]);
    assert(rb_bits(3) =~= seq![0b11u16, 0b10u16, 0b01u16, 0b00u16, 0u16, 0u16, 0u16, 0u16, 0u16, 0u16, 0u16, 0u16, 0u16, 0u16, 0u16]);
    assert(rb_len(4) =~= seq![2u8, 2u8, 2u8, 3u8, 3u8, 0u8, 0u8, 0u8, 0u8, 0u8, 0u8, 0u8, 0u8, 0u8, 0u8]);
    assert(rb_bits(4) =~= seq![0b11u16, 0b10u16, 0b01u16, 0b001u16, 0b000u16, 0u16, 0u16, 0u16, 0u16, 0u16, 0u16, 0u16, 0u16, 0u16, 0u16]);
    assert(rb_len(5) =~= seq![2u8, 2u8, 3u8, 3u8, 3u8, 3u8, 0u8, 0u8, 0u8, 0u8, 0u8, 0u8, 0u8, 0u8, 0u8]);
    assert(rb_bits(5) =~= seq![0b11u16, 0b10u16, 0b011u16, 0b010u16, 0b001u16, 0b000u16, 0u16, 0u16, 0u16, 0u16, 0u16, 0u16, 0u16, 0u16, 0u16]);
    assert(rb_len(6) =~= seq![2u8, 3u8, 3u8, 3u8, 3u8, 3u8, 3u8, 0u8, 0u8, 0u8, 0u8, 0u8, 0u8, 0u8, 0u8]);
    assert(rb_bits(6) =~= seq![0b11u16, 0b000u16, 0b001u16, 0b011u16, 0b010u16, 0b101u16, 0b100u16, 0u16, 0u16, 0u16, 0u16, 0u16, 0u16, 0u16, 0u16]);
    assert(rb_len(7) =~= seq![3u8, 3u8, 3u8, 3u8, 3u8, 3u8, 3u8, 4u8, 5u8, 6u8, 7u8, 8u8, 9u8, 10u8, 11u8]);
    assert(rb_bits(7) =~= seq![0b111u16, 0b110u16, 0b101u16, 0b100u16, 0b011u16, 0b010u16, 0b001u16, 0b0001u16, 0b00001u16, 0b000001u16, 0b0000001u16, 0b00000001u16, 0b000000001u16, 0b0000000001u16, 0b00000000001u16]);
}

} // verus!
