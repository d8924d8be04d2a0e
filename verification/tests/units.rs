use asm16::assembler::assemble;
use asm16::binary::encode_address;
use asm16::fields::{assemble_comp, assemble_dest, assemble_jmp, Field};
use asm16::instructions::{assemble_a_instruction, assemble_c_instruction};
use asm16::numeric::parse_u16;
use asm16::symbols::build_symbol_table;

const DESTS: [(&str, &str); 7] = [
    ("M", "001"),
    ("D", "010"),
    ("MD", "011"),
    ("A", "100"),
    ("AM", "101"),
    ("AD", "110"),
    ("AMD", "111"),
];

const JUMPS: [(&str, &str); 7] = [
    ("JGT", "001"),
    ("JEQ", "010"),
    ("JGE", "011"),
    ("JLT", "100"),
    ("JNE", "101"),
    ("JLE", "110"),
    ("JMP", "111"),
];

const COMPS: [(&str, &str); 28] = [
    ("0", "0101010"),
    ("1", "0111111"),
    ("-1", "0111010"),
    ("D", "0001100"),
    ("A", "0110000"),
    ("!D", "0001101"),
    ("!A", "0110001"),
    ("-D", "0001111"),
    ("-A", "0110011"),
    ("D+1", "0011111"),
    ("A+1", "0110111"),
    ("D-1", "0001110"),
    ("A-1", "0110010"),
    ("D+A", "0000010"),
    ("D-A", "0010011"),
    ("A-D", "0000111"),
    ("D&A", "0000000"),
    ("A|D", "0010101"),
    ("M", "1110000"),
    ("!M", "1110001"),
    ("-M", "1110011"),
    ("M+1", "1110111"),
    ("M-1", "1110010"),
    ("D+M", "1000010"),
    ("D-M", "1010011"),
    ("M-D", "1000111"),
    ("D&M", "1000000"),
    ("D|M", "1010101"),
];

fn chars(s: &str) -> Vec<char> {
    s.chars().collect()
}

#[test]
fn every_field_combination_follows_the_tables() {
    // Exhaustive: every recognized dest=comp;jump combination, with the
    // optional fields present or absent, in one symbol-free program.
    let mut source: Vec<String> = Vec::new();
    let mut expected: Vec<String> = Vec::new();
    let mut dests: Vec<(Option<&str>, &str)> = vec![(None, "000")];
    dests.extend(DESTS.iter().map(|&(m, c)| (Some(m), c)));
    let mut jumps: Vec<(Option<&str>, &str)> = vec![(None, "000")];
    jumps.extend(JUMPS.iter().map(|&(m, c)| (Some(m), c)));
    for &(dest, dcode) in dests.iter() {
        for &(comp, ccode) in COMPS.iter() {
            for &(jump, jcode) in jumps.iter() {
                let mut line = String::new();
                if let Some(d) = dest {
                    line.push_str(d);
                    line.push('=');
                }
                line.push_str(comp);
                if let Some(j) = jump {
                    line.push(';');
                    line.push_str(j);
                }
                source.push(line);
                expected.push(format!("111{}{}{}", ccode, dcode, jcode));
            }
        }
    }
    let result = assemble(source).unwrap();
    assert_eq!(result, expected);
}

#[test]
fn dest_table_is_exact() {
    for &(mnemonic, code) in DESTS.iter() {
        assert_eq!(assemble_dest(&chars(mnemonic)).unwrap(), code);
    }
    let err = assemble_dest(&chars("DM")).unwrap_err();
    assert_eq!(err.field, Field::Dest);
    assert_eq!(err.mnemonic, chars("DM"));
}

#[test]
fn jump_table_is_exact() {
    for &(mnemonic, code) in JUMPS.iter() {
        assert_eq!(assemble_jmp(&chars(mnemonic)).unwrap(), code);
    }
    let err = assemble_jmp(&chars("jmp")).unwrap_err();
    assert_eq!(err.field, Field::Jump);
    assert_eq!(err.mnemonic, chars("jmp"));
}

#[test]
fn comp_table_is_exact() {
    for &(mnemonic, code) in COMPS.iter() {
        assert_eq!(assemble_comp(&chars(mnemonic)).unwrap(), code);
    }
    let err = assemble_comp(&chars("A+D")).unwrap_err();
    assert_eq!(err.field, Field::Comp);
    assert_eq!(err.mnemonic, chars("A+D"));
}

#[test]
fn c_instruction_defaults() {
    assert_eq!(assemble_c_instruction("0").unwrap(), "1110101010000000");
    assert_eq!(assemble_c_instruction("D=M").unwrap(), "1111110000010000");
    assert_eq!(assemble_c_instruction("D;JGT").unwrap(), "1110001100000001");
}

#[test]
fn a_instruction_resolution() {
    let table = build_symbol_table();
    assert_eq!(
        assemble_a_instruction("@21", &table).unwrap(),
        "0000000000010101"
    );
    assert_eq!(
        assemble_a_instruction("@THAT", &table).unwrap(),
        "0000000000000100"
    );
    assert!(assemble_a_instruction("@nowhere", &table).is_none());
}

#[test]
fn decimal_parsing() {
    assert_eq!(parse_u16("0"), Some(0));
    assert_eq!(parse_u16("5"), Some(5));
    assert_eq!(parse_u16("+5"), Some(5));
    assert_eq!(parse_u16("016"), Some(16));
    assert_eq!(parse_u16("65535"), Some(65535));
    assert_eq!(parse_u16("65536"), None);
    assert_eq!(parse_u16("70000"), None);
    assert_eq!(parse_u16(""), None);
    assert_eq!(parse_u16("+"), None);
    assert_eq!(parse_u16("-1"), None);
    assert_eq!(parse_u16("1a"), None);
    assert_eq!(parse_u16("a1"), None);
}

#[test]
fn address_rendering_matches_zero_padded_binary() {
    for value in [0usize, 1, 2, 5, 16, 255, 16384, 24576, 65535, 70000, 1 << 20] {
        assert_eq!(encode_address(value), format!("{:016b}", value));
    }
}

#[test]
fn symbol_table_preseeded_entries() {
    let table = build_symbol_table();
    assert_eq!(table.get("R0"), Some(&0));
    assert_eq!(table.get("R15"), Some(&15));
    assert_eq!(table.get("SP"), Some(&0));
    assert_eq!(table.get("LCL"), Some(&1));
    assert_eq!(table.get("ARG"), Some(&2));
    assert_eq!(table.get("THIS"), Some(&3));
    assert_eq!(table.get("THAT"), Some(&4));
    assert_eq!(table.get("SCREEN"), Some(&16384));
    assert_eq!(table.get("KBD"), Some(&24576));
    assert_eq!(table.get("R16"), None);
    assert_eq!(table.get("sp"), None);
}
