use asm16::assembler::assemble;
use asm16::fields::Field;

fn lines(src: &[&str]) -> Vec<String> {
    src.iter().map(|s| s.to_string()).collect()
}

fn words(out: &[&str]) -> Vec<String> {
    out.iter().map(|s| s.to_string()).collect()
}

#[test]
fn scenario_constants_and_registers() {
    let result = assemble(lines(&["@2", "D=A", "@3", "D=D+A", "@0", "M=D"])).unwrap();
    assert_eq!(
        result,
        words(&[
            "0000000000000010",
            "1110110000010000",
            "0000000000000011",
            "1110000010010000",
            "0000000000000000",
            "1110001100001000",
        ])
    );
}

#[test]
fn scenario_forward_label() {
    let result = assemble(lines(&["@LOOP", "0;JMP", "(LOOP)", "@1", "D=A"])).unwrap();
    assert_eq!(
        result,
        words(&[
            "0000000000000010",
            "1110101010000111",
            "0000000000000001",
            "1110110000010000",
        ])
    );
}

#[test]
fn scenario_variable_allocation() {
    let result = assemble(lines(&["@foo", "M=1", "@bar", "M=1", "@foo", "M=1"])).unwrap();
    assert_eq!(
        result,
        words(&[
            "0000000000010000",
            "1110111111001000",
            "0000000000010001",
            "1110111111001000",
            "0000000000010000",
            "1110111111001000",
        ])
    );
}

#[test]
fn comments_blanks_and_whitespace_are_skipped() {
    let result = assemble(lines(&[
        "// a comment",
        "   @2",
        "",
        "   ",
        "\t(L)",
        "@L",
        "/ short comment",
    ]))
    .unwrap();
    assert_eq!(result, words(&["0000000000000010", "0000000000000001"]));
}

#[test]
fn label_binds_count_of_preceding_instructions() {
    let result = assemble(lines(&["@9", "D=A", "(HERE)", "@HERE", "0;JMP"])).unwrap();
    // HERE is bound to 2: two instructions precede its definition line.
    assert_eq!(result[2], "0000000000000010");
}

#[test]
fn duplicate_label_silently_overwrites() {
    let result = assemble(lines(&["(L)", "@1", "(L)", "@L"])).unwrap();
    assert_eq!(result, words(&["0000000000000001", "0000000000000001"]));
}

#[test]
fn mixed_labels_and_variables() {
    let result = assemble(lines(&["@i", "@LOOP", "(LOOP)", "@i"])).unwrap();
    assert_eq!(
        result,
        words(&[
            "0000000000010000",
            "0000000000000010",
            "0000000000010000",
        ])
    );
}

#[test]
fn predefined_symbols_resolve_to_fixed_values() {
    let source = [
        "@SP", "@LCL", "@ARG", "@THIS", "@THAT", "@SCREEN", "@KBD", "@R0", "@R1", "@R2", "@R3",
        "@R4", "@R5", "@R6", "@R7", "@R8", "@R9", "@R10", "@R11", "@R12", "@R13", "@R14", "@R15",
    ];
    let expected: Vec<usize> = vec![
        0, 1, 2, 3, 4, 16384, 24576, 0, 1, 2, 3, 4, 5, 6, 7, 8, 9, 10, 11, 12, 13, 14, 15,
    ];
    let result = assemble(lines(&source)).unwrap();
    for (word, value) in result.iter().zip(expected.iter()) {
        assert_eq!(word, &format!("{:016b}", value));
    }
}

#[test]
fn unknown_comp_mnemonic_aborts() {
    let err = assemble(lines(&["@1", "M=B", "@2"])).unwrap_err();
    assert_eq!(err.field, Field::Comp);
    assert_eq!(err.mnemonic, vec!['B']);
}

#[test]
fn unknown_dest_mnemonic_aborts() {
    let err = assemble(lines(&["X=D"])).unwrap_err();
    assert_eq!(err.field, Field::Dest);
    assert_eq!(err.mnemonic, vec!['X']);
}

#[test]
fn unknown_jump_mnemonic_aborts() {
    let err = assemble(lines(&["D;JMQ"])).unwrap_err();
    assert_eq!(err.field, Field::Jump);
    assert_eq!(err.mnemonic, vec!['J', 'M', 'Q']);
}

#[test]
fn numeric_literal_edges() {
    // A literal too wide for 16 bits is taken for a symbol name and
    // allocated as a variable; a leading plus sign still reads as a number.
    let result = assemble(lines(&["@70000", "@+5", "@65535", "@016"])).unwrap();
    assert_eq!(
        result,
        words(&[
            "0000000000010000",
            "0000000000000101",
            "1111111111111111",
            "0000000000010000",
        ])
    );
}

#[test]
fn repeated_at_signs_are_stripped() {
    let result = assemble(lines(&["@@7"])).unwrap();
    assert_eq!(result, words(&["0000000000000111"]));
}
