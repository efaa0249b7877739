//! The two-pass resolution: labels, variables, built-ins, blank lines,
//! faults, and one complete program.

use hack_assembler::assembler::HackAssembler;
use hack_assembler::instr::AsmErrorKind;

fn assemble(text: &str) -> Result<Vec<String>, hack_assembler::instr::AsmError> {
    let mut a = HackAssembler::new(text);
    a.assemble_program()
}

fn assemble_ok(text: &str) -> Vec<String> {
    assemble(text).expect("assembly should succeed")
}

#[test]
fn label_before_any_instruction_is_address_zero() {
    let program = assemble_ok("(TOP)\n@TOP\nD=M\n");
    assert_eq!(program, vec!["0000000000000000", "1111110000010000"]);
}

#[test]
fn label_after_k_instructions_is_address_k() {
    let program = assemble_ok("@TOP\nD=M\n(AFTER)\n@AFTER\n");
    assert_eq!(
        program,
        vec!["0000000000010000", "1111110000010000", "0000000000000010"]
    );
}

#[test]
fn forward_label_reference_resolves() {
    let program = assemble_ok("@END\n0;JMP\n(END)\n@END\n0;JMP\n");
    assert_eq!(
        program,
        vec![
            "0000000000000010",
            "1110101010000111",
            "0000000000000010",
            "1110101010000111"
        ]
    );
}

#[test]
fn label_redeclaration_last_wins() {
    let program = assemble_ok("(L)\n@L\nD=M\n(L)\n@L\n");
    assert_eq!(
        program,
        vec!["0000000000000010", "1111110000010000", "0000000000000010"]
    );
}

#[test]
fn first_variable_gets_sixteen_second_seventeen() {
    let program = assemble_ok("@x\n@y\n");
    assert_eq!(program, vec!["0000000000010000", "0000000000010001"]);
}

#[test]
fn rereferenced_variable_keeps_its_address() {
    let program = assemble_ok("@x\n@y\n@x\n@y\n");
    assert_eq!(
        program,
        vec![
            "0000000000010000",
            "0000000000010001",
            "0000000000010000",
            "0000000000010001"
        ]
    );
}

#[test]
fn numeric_constant_is_independent_of_symbol_table() {
    let program = assemble_ok("@n\n@m\n@17\n");
    assert_eq!(
        program,
        vec!["0000000000010000", "0000000000010001", "0000000000010001"]
    );
}

#[test]
fn constant_seventeen() {
    assert_eq!(assemble_ok("@17"), vec!["0000000000010001"]);
}

#[test]
fn constant_with_leading_zeros() {
    assert_eq!(assemble_ok("@007"), vec!["0000000000000111"]);
}

#[test]
fn constant_largest_address() {
    assert_eq!(assemble_ok("@32767"), vec!["0111111111111111"]);
}

#[test]
fn screen_and_keyboard_bases() {
    let program = assemble_ok("@SCREEN\n@KBD\n");
    assert_eq!(program, vec!["0100000000000000", "0110000000000000"]);
}

#[test]
fn registers_and_segments_are_preseeded() {
    let program = assemble_ok("@R0\n@R15\n@SP\n@LCL\n@ARG\n@THIS\n@THAT\n");
    assert_eq!(
        program,
        vec![
            "0000000000000000",
            "0000000000001111",
            "0000000000000000",
            "0000000000000001",
            "0000000000000010",
            "0000000000000011",
            "0000000000000100"
        ]
    );
}

#[test]
fn blank_and_comment_lines_emit_nothing() {
    assert_eq!(assemble_ok("   \n// just a comment\n\t\r\n"), Vec::<String>::new());
}

#[test]
fn comments_do_not_shift_addresses() {
    let with_noise = assemble_ok("// top\n@1\n\n  // middle\n(L)\n@L\n");
    let without = assemble_ok("@1\n(L)\n@L\n");
    assert_eq!(with_noise, without);
    assert_eq!(with_noise, vec!["0000000000000001", "0000000000000001"]);
}

#[test]
fn empty_input_is_an_empty_program() {
    assert_eq!(assemble_ok(""), Vec::<String>::new());
}

#[test]
fn malformed_label_is_reported() {
    let e = assemble("(LOOP").unwrap_err();
    assert_eq!(e.kind, AsmErrorKind::MalformedLabel);
    assert_eq!(e.token, "");
}

#[test]
fn malformed_label_names_the_bad_character() {
    let e = assemble("(LOOP}\n").unwrap_err();
    assert_eq!(e.kind, AsmErrorKind::MalformedLabel);
    assert_eq!(e.token, "}");
}

#[test]
fn unknown_destination_is_reported() {
    let e = assemble("AMD=0\n").unwrap_err();
    assert_eq!(e.kind, AsmErrorKind::UnknownDestination);
    assert_eq!(e.token, "AMD");
}

#[test]
fn unknown_computation_is_reported() {
    let e = assemble("D=D+D\n").unwrap_err();
    assert_eq!(e.kind, AsmErrorKind::UnknownComputation);
    assert_eq!(e.token, "D+D");
}

#[test]
fn unknown_jump_is_reported() {
    let e = assemble("0;JXX\n").unwrap_err();
    assert_eq!(e.kind, AsmErrorKind::UnknownJump);
    assert_eq!(e.token, "JXX");
}

#[test]
fn empty_computation_is_reported() {
    let e = assemble("$\n").unwrap_err();
    assert_eq!(e.kind, AsmErrorKind::EmptyComputation);
    assert_eq!(e.token, "");
}

#[test]
fn semicolon_without_computation_is_reported() {
    let e = assemble(";JMP\n").unwrap_err();
    assert_eq!(e.kind, AsmErrorKind::EmptyComputation);
}

#[test]
fn address_out_of_range_is_reported() {
    let e = assemble("@32768\n").unwrap_err();
    assert_eq!(e.kind, AsmErrorKind::AddressOutOfRange);
    assert_eq!(e.token, "32768");
}

#[test]
fn huge_numeric_operand_is_out_of_range() {
    let e = assemble("@99999999999999999999\n").unwrap_err();
    assert_eq!(e.kind, AsmErrorKind::AddressOutOfRange);
}

#[test]
fn fault_aborts_the_whole_run() {
    assert!(assemble("@1\n@2\nAMD=0\n").is_err());
}

#[test]
fn rect_program_assembles_to_reference_output() {
    let program = assemble_ok(
        "
// Draws a rectangle at the top-left corner of the screen.
// The rectangle is 16 pixels wide and R0 pixels high.

   // If (R0 <= 0) goto END else n = R0
   @R0
   D=M
   @END
   D;JLE
   @n
   M=D
   // addr = base address of first screen row
   @SCREEN
   D=A
   @addr
   M=D
(LOOP)
   // RAM[addr] = -1
   @addr
   A=M
   M=-1
   // addr = base address of next screen row
   @addr
   D=M
   @32
   D=D+A
   @addr
   M=D
   // decrements n and loops
   @n
   M=M-1
   D=M
   @LOOP
   D;JGT
(END)
   @END
   0;JMP
",
    );
    let expected = vec![
        "0000000000000000",
        "1111110000010000",
        "0000000000011000",
        "1110001100000110",
        "0000000000010000",
        "1110001100001000",
        "0100000000000000",
        "1110110000010000",
        "0000000000010001",
        "1110001100001000",
        "0000000000010001",
        "1111110000100000",
        "1110111010001000",
        "0000000000010001",
        "1111110000010000",
        "0000000000100000",
        "1110000010010000",
        "0000000000010001",
        "1110001100001000",
        "0000000000010000",
        "1111110010001000",
        "1111110000010000",
        "0000000000001010",
        "1110001100000001",
        "0000000000011000",
        "1110101010000111",
    ];
    assert_eq!(program, expected);
}
