use fieldparse::chain::{opt, store, to_byte, to_u8, trim, trimr};
use fieldparse::evaluator::ChainingError;
use fieldparse::parser;
use fieldparse::parser::{skip, take, Parser, ParsingError};
use fieldparse::slots::{Handle, Slots};

struct Atom {
    serial: Handle,
    name: Handle,
    alt_loc: Handle,
    res_name: Handle,
    icode: Handle,
    x: Handle,
    y: Handle,
    z: Handle,
}

fn atom(slots: &mut Slots) -> Atom {
    Atom {
        serial: slots.add_i32(0),
        name: slots.add_str(""),
        alt_loc: slots.add_u8(0),
        res_name: slots.add_str(""),
        icode: slots.add_u8(0),
        x: slots.add_f64("0"),
        y: slots.add_f64("0"),
        z: slots.add_f64("0"),
    }
}

fn atom_parser(a: &Atom) -> Parser {
    parser::seq(vec![
        take(6).chain(trimr().eq_str("ATOM")),
        take(5).chain(trim().to_i32().store(a.serial)),
        skip(1),
        take(4).chain(trim().store(a.name)),
        take(1).chain(opt(to_u8().store(a.alt_loc))),
        take(3).chain(store(a.res_name)),
        skip(1),
        take(1).chain(to_byte().store(a.icode)),
        skip(8),
        take(8).chain(trim().to_f64().store(a.x)),
        take(8).chain(trim().to_f64().store(a.y)),
        take(8).chain(trim().to_f64().store(a.z)),
    ])
}

fn number_at(slots: &Slots, handle: Handle) -> f64 {
    slots.get_f64(handle).unwrap().parse::<f64>().unwrap()
}

#[test]
fn well_formed_atom_line_fills_every_destination() {
    let line = "ATOM     23  CG1 VAL R   3      58.836  39.331  40.265  1.00  0.00";
    let mut slots = Slots::new();
    let a = atom(&mut slots);
    assert_eq!(atom_parser(&a).parse(line, &mut slots), Ok(None));
    assert_eq!(slots.get_i32(a.serial), Some(23));
    assert_eq!(slots.get_str(a.name), Some("CG1"));
    assert_eq!(slots.get_u8(a.alt_loc), Some(0));
    assert_eq!(slots.get_str(a.res_name), Some("VAL"));
    assert_eq!(slots.get_u8(a.icode), Some(b'R'));
    assert_eq!(slots.get_f64(a.x), Some("58.836"));
    assert_eq!(number_at(&slots, a.x), 58.836);
    assert_eq!(number_at(&slots, a.y), 39.331);
    assert_eq!(number_at(&slots, a.z), 40.265);
}

#[test]
fn other_atom_lines_parse_too() {
    let mut slots = Slots::new();
    let a = atom(&mut slots);
    let p = atom_parser(&a);
    let line = "ATOM     89  OG  SER A 693      25.623   8.222  86.526  1.00 43.01           O ";
    assert_eq!(p.parse(line, &mut slots), Ok(None));
    assert_eq!(slots.get_i32(a.serial), Some(89));
    assert_eq!(slots.get_str(a.name), Some("OG"));
    assert_eq!(slots.get_str(a.res_name), Some("SER"));
    assert_eq!(slots.get_u8(a.icode), Some(b'A'));
    assert_eq!(number_at(&slots, a.x), 25.623);
    assert_eq!(number_at(&slots, a.y), 8.222);
    assert_eq!(number_at(&slots, a.z), 86.526);
    // The optional slot holds a digit here, which is stored.
    let line = "ATOM     90 2HE27GLN R   7      55.573  32.236  40.457  1.00  0.00";
    assert_eq!(p.parse(line, &mut slots), Ok(None));
    assert_eq!(slots.get_i32(a.serial), Some(90));
    assert_eq!(slots.get_str(a.name), Some("2HE2"));
    assert_eq!(slots.get_u8(a.alt_loc), Some(7));
    assert_eq!(slots.get_str(a.res_name), Some("GLN"));
    assert_eq!(number_at(&slots, a.z), 40.457);
}

#[test]
fn hetatm_record_fails_the_equality_and_writes_nothing() {
    let line = "HETATM   23  CG1 VAL R   3      58.836  39.331  40.265  1.00  0.00";
    let mut slots = Slots::new();
    let a = atom(&mut slots);
    assert_eq!(
        atom_parser(&a).parse(line, &mut slots),
        Err(ParsingError::ChainError(ChainingError::EqFailed))
    );
    assert_eq!(slots.get_i32(a.serial), Some(0));
    assert_eq!(slots.get_str(a.name), Some(""));
    assert_eq!(slots.get_u8(a.alt_loc), Some(0));
    assert_eq!(slots.get_str(a.res_name), Some(""));
    assert_eq!(slots.get_u8(a.icode), Some(0));
    assert_eq!(slots.get_f64(a.x), Some("0"));
    assert_eq!(slots.get_f64(a.y), Some("0"));
    assert_eq!(slots.get_f64(a.z), Some("0"));
}

#[test]
fn short_buffer_fails_and_keeps_what_was_written() {
    // The line ends inside the second coordinate.
    let line = "ATOM     23  CG1 VAL R   3      58.836  39.3";
    let mut slots = Slots::new();
    let a = atom(&mut slots);
    assert_eq!(atom_parser(&a).parse(line, &mut slots), Err(ParsingError::InsufficientData));
    assert_eq!(slots.get_i32(a.serial), Some(23));
    assert_eq!(slots.get_str(a.name), Some("CG1"));
    assert_eq!(slots.get_str(a.res_name), Some("VAL"));
    assert_eq!(slots.get_u8(a.icode), Some(b'R'));
    assert_eq!(number_at(&slots, a.x), 58.836);
    assert_eq!(slots.get_f64(a.y), Some("0"));
    assert_eq!(slots.get_f64(a.z), Some("0"));
    // The line ends inside a skip.
    let mut slots = Slots::new();
    let a = atom(&mut slots);
    assert_eq!(
        atom_parser(&a).parse("ATOM     23  CG1 VAL R   3", &mut slots),
        Err(ParsingError::InsufficientData)
    );
    assert_eq!(slots.get_i32(a.serial), Some(23));
    assert_eq!(slots.get_u8(a.icode), Some(b'R'));
    assert_eq!(slots.get_f64(a.x), Some("0"));
    // The line is shorter than its first field.
    let mut slots = Slots::new();
    let a = atom(&mut slots);
    assert_eq!(atom_parser(&a).parse("ATOM", &mut slots), Err(ParsingError::InsufficientData));
    assert_eq!(slots.get_i32(a.serial), Some(0));
}

#[test]
fn two_bytes_are_no_byte() {
    let mut slots = Slots::new();
    let b = slots.add_u8(0);
    let p = take(2).chain(to_byte().store(b));
    assert_eq!(
        p.parse("RX rest", &mut slots),
        Err(ParsingError::ChainError(ChainingError::BiggerThenByte))
    );
    assert_eq!(slots.get_u8(b), Some(0));
}

#[test]
fn skip_with_a_chain_is_a_malformed_parser() {
    let mut slots = Slots::new();
    let s = slots.add_str("before");
    let p = skip(1).chain(store(s));
    for buffer in ["", "a", "abc", "é", "ATOM     23"] {
        assert_eq!(p.parse(buffer, &mut slots), Err(ParsingError::ChainAfterSkip));
    }
    assert_eq!(skip(100).chain(trim()).parse("abc", &mut slots), Err(ParsingError::ChainAfterSkip));
    assert_eq!(slots.get_str(s), Some("before"));
}
