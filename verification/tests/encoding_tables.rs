//! Every mnemonic of the three encoding tables, checked through the
//! public assembling interface against its documented bit pattern.

use hack_assembler::assembler::HackAssembler;

fn one_line(text: &str) -> String {
    let mut a = HackAssembler::new(text);
    let program = a.assemble_program().expect("assembly should succeed");
    assert_eq!(program.len(), 1);
    program[0].clone()
}

#[test]
fn comp_zero() {
    assert_eq!(one_line("0"), "1110101010000000");
}

#[test]
fn comp_one() {
    assert_eq!(one_line("1"), "1110111111000000");
}

#[test]
fn comp_minus_one() {
    assert_eq!(one_line("-1"), "1110111010000000");
}

#[test]
fn comp_d() {
    assert_eq!(one_line("D"), "1110001100000000");
}

#[test]
fn comp_a() {
    assert_eq!(one_line("A"), "1110110000000000");
}

#[test]
fn comp_m() {
    assert_eq!(one_line("M"), "1111110000000000");
}

#[test]
fn comp_not_d() {
    assert_eq!(one_line("!D"), "1110001101000000");
}

#[test]
fn comp_not_a() {
    assert_eq!(one_line("!A"), "1110110001000000");
}

#[test]
fn comp_not_m() {
    assert_eq!(one_line("!M"), "1111110001000000");
}

#[test]
fn comp_minus_d() {
    assert_eq!(one_line("-D"), "1110001111000000");
}

#[test]
fn comp_minus_a() {
    assert_eq!(one_line("-A"), "1110110011000000");
}

#[test]
fn comp_minus_m() {
    assert_eq!(one_line("-M"), "1111110011000000");
}

#[test]
fn comp_d_plus_one() {
    assert_eq!(one_line("D+1"), "1110011111000000");
}

#[test]
fn comp_a_plus_one() {
    assert_eq!(one_line("A+1"), "1110110111000000");
}

#[test]
fn comp_m_plus_one() {
    assert_eq!(one_line("M+1"), "1111110111000000");
}

#[test]
fn comp_d_minus_one() {
    assert_eq!(one_line("D-1"), "1110001110000000");
}

#[test]
fn comp_a_minus_one() {
    assert_eq!(one_line("A-1"), "1110110010000000");
}

#[test]
fn comp_m_minus_one() {
    assert_eq!(one_line("M-1"), "1111110010000000");
}

#[test]
fn comp_d_plus_a() {
    assert_eq!(one_line("D+A"), "1110000010000000");
}

#[test]
fn comp_d_plus_m() {
    assert_eq!(one_line("D+M"), "1111000010000000");
}

#[test]
fn comp_d_minus_a() {
    assert_eq!(one_line("D-A"), "1110010011000000");
}

#[test]
fn comp_d_minus_m() {
    assert_eq!(one_line("D-M"), "1111010011000000");
}

#[test]
fn comp_a_minus_d() {
    assert_eq!(one_line("A-D"), "1110000111000000");
}

#[test]
fn comp_m_minus_d() {
    assert_eq!(one_line("M-D"), "1111000111000000");
}

#[test]
fn comp_d_and_a() {
    assert_eq!(one_line("D&A"), "1110000000000000");
}

#[test]
fn comp_d_and_m() {
    assert_eq!(one_line("D&M"), "1111000000000000");
}

#[test]
fn comp_d_or_a() {
    assert_eq!(one_line("D|A"), "1110010101000000");
}

#[test]
fn comp_d_or_m() {
    assert_eq!(one_line("D|M"), "1111010101000000");
}

#[test]
fn dest_empty() {
    assert_eq!(one_line("0"), "1110101010000000");
}

#[test]
fn dest_m() {
    assert_eq!(one_line("M=0"), "1110101010001000");
}

#[test]
fn dest_d() {
    assert_eq!(one_line("D=0"), "1110101010010000");
}

#[test]
fn dest_dm() {
    assert_eq!(one_line("DM=0"), "1110101010011000");
}

#[test]
fn dest_a() {
    assert_eq!(one_line("A=0"), "1110101010100000");
}

#[test]
fn dest_am() {
    assert_eq!(one_line("AM=0"), "1110101010101000");
}

#[test]
fn dest_ad() {
    assert_eq!(one_line("AD=0"), "1110101010110000");
}

#[test]
fn dest_adm() {
    assert_eq!(one_line("ADM=0"), "1110101010111000");
}

#[test]
fn jump_empty() {
    assert_eq!(one_line("D"), "1110001100000000");
}

#[test]
fn jump_jgt() {
    assert_eq!(one_line("0;JGT"), "1110101010000001");
}

#[test]
fn jump_jeq() {
    assert_eq!(one_line("0;JEQ"), "1110101010000010");
}

#[test]
fn jump_jge() {
    assert_eq!(one_line("0;JGE"), "1110101010000011");
}

#[test]
fn jump_jlt() {
    assert_eq!(one_line("0;JLT"), "1110101010000100");
}

#[test]
fn jump_jne() {
    assert_eq!(one_line("0;JNE"), "1110101010000101");
}

#[test]
fn jump_jle() {
    assert_eq!(one_line("0;JLE"), "1110101010000110");
}

#[test]
fn jump_jmp() {
    assert_eq!(one_line("0;JMP"), "1110101010000111");
}
