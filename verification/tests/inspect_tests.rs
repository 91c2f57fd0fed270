use fieldparse::chain::{eq_str, neqs, opt, or, store, to_byte, to_i32, to_u8, trim, trimr, Operation};
use fieldparse::inspect::{
    format_op, print, print_aux, print_branches, print_chain, print_decimal, Indent, Indentation,
};
use fieldparse::parser;
use fieldparse::parser::{blank, pword, skip, take};
use fieldparse::slots::Handle;

fn margin(items: &[Indentation]) -> Indent {
    let mut indent = Indent::new();
    for item in items {
        indent = indent.push_clone(*item);
    }
    indent
}

fn text_of(indent: &Indent) -> String {
    let mut out = String::new();
    indent.print(&mut out);
    out
}

#[test]
fn new_margin_is_empty() {
    assert!(Indent::new().indents.is_empty());
    assert_eq!(text_of(&Indent::new()), "");
}

#[test]
fn push_clone_adds_to_the_right() {
    let one = Indent::new().push_clone(Indentation::Space(3));
    assert_eq!(one.indents, vec![Indentation::Space(3)]);
    let two = one.push_clone(Indentation::BlockEnd(4));
    assert_eq!(two.indents, vec![Indentation::Space(3), Indentation::BlockEnd(4)]);
    // The margin it was made from is as before.
    assert_eq!(one.indents, vec![Indentation::Space(3)]);
}

#[test]
fn push_clone_of_a_branch_turns_branches_into_rails() {
    let base = margin(&[Indentation::BlockEnd(4), Indentation::Space(2), Indentation::Block(1)]);
    assert_eq!(
        base.push_clone(Indentation::BlockEnd(3)).indents,
        vec![
            Indentation::Block(4),
            Indentation::Space(2),
            Indentation::Block(1),
            Indentation::BlockEnd(3)
        ]
    );
    assert_eq!(
        base.push_clone(Indentation::Space(7)).indents,
        vec![
            Indentation::BlockEnd(4),
            Indentation::Space(2),
            Indentation::Block(1),
            Indentation::Space(7)
        ]
    );
    assert_eq!(
        base.push_clone(Indentation::Block(0)).indents,
        vec![
            Indentation::BlockEnd(4),
            Indentation::Space(2),
            Indentation::Block(1),
            Indentation::Block(0)
        ]
    );
}

#[test]
fn duplicate_is_a_copy() {
    let base = margin(&[Indentation::BlockEnd(4), Indentation::Space(2)]);
    assert_eq!(base.duplicate().indents, base.indents);
}

#[test]
fn margin_text() {
    assert_eq!(text_of(&margin(&[Indentation::Space(3)])), "   ");
    assert_eq!(text_of(&margin(&[Indentation::BlockEnd(4)])), "     |- ");
    assert_eq!(text_of(&margin(&[Indentation::Block(4)])), "     |  ");
    assert_eq!(
        text_of(&margin(&[Indentation::BlockEnd(4), Indentation::Space(2), Indentation::BlockEnd(0)])),
        "     |     |- "
    );
    let mut out = String::from("kept");
    margin(&[Indentation::Space(1)]).print(&mut out);
    assert_eq!(out, "kept ");
}

#[test]
fn spaces_text() {
    let mut out = String::from("x");
    Indent::print_spaces(0, &mut out);
    assert_eq!(out, "x");
    Indent::print_spaces(5, &mut out);
    assert_eq!(out, "x     ");
}

#[test]
fn decimal_text() {
    for n in [0usize, 1, 9, 10, 11, 99, 100, 101, 4096, 1234567890, usize::MAX] {
        let mut out = String::from("n=");
        print_decimal(n, &mut out);
        assert_eq!(out, format!("n={}", n));
    }
}

#[test]
fn labels_of_steps() {
    assert_eq!(format_op(&Operation::TrimR), "trimr");
    assert_eq!(format_op(&Operation::TrimL), "triml");
    assert_eq!(format_op(&Operation::EqualString("ATOM".to_string())), "eq ATOM");
    assert_eq!(format_op(&Operation::NotEqualString("é".to_string())), "neq é");
    assert_eq!(format_op(&Operation::Trim), "trim");
    assert_eq!(format_op(&Operation::Store(Handle { index: 2 })), "store");
    assert_eq!(format_op(&Operation::Empty), "empty");
    assert_eq!(format_op(&Operation::Or(vec![])), "or -|- ");
    assert_eq!(format_op(&Operation::ToI32), "to_i32");
    assert_eq!(format_op(&Operation::ToF64), "to_f64");
    assert_eq!(format_op(&Operation::ToU8), "to_u8");
    assert_eq!(format_op(&Operation::ToByte), "to_byte");
    assert_eq!(format_op(&Operation::Opt(trim())), "opt <");
}

#[test]
fn leaves_render_on_one_line() {
    let h = Handle { index: 0 };
    assert_eq!(print(&take(6)), "take 6\n");
    assert_eq!(print(&take(6).chain(trimr().eq_str("ATOM"))), "take 6 -> trimr -> eq ATOM\n");
    assert_eq!(print(&take(12).chain(trim().to_i32().store(h))), "take 12 -> trim -> to_i32 -> store\n");
    assert_eq!(print(&skip(8)), "skip 8\n");
    // A word and a blank render without their chain and without a line end.
    assert_eq!(print(&pword()), "pword");
    assert_eq!(print(&blank().chain(trim())), "blank");
}

#[test]
fn optional_chain_renders_in_angle_brackets() {
    let h = Handle { index: 0 };
    assert_eq!(print(&take(1).chain(opt(to_u8().store(h)))), "take 1 -> opt <to_u8 -> store>\n");
    assert_eq!(
        print(&take(1).chain(trim().opt(to_u8()).store(h))),
        "take 1 -> trim -> opt <to_u8>\n -> store"
    );
}

#[test]
fn alternative_renders_one_chain_per_line() {
    assert_eq!(
        print(&take(2).chain(or(vec![trim().to_u8(), to_i32()]))),
        "take 2 -> or -|- trim -> to_u8\n              |- to_i32\n"
    );
    assert_eq!(print(&take(2).chain(or(vec![]))), "take 2 -> or -|- ");
}

#[test]
fn sequence_renders_its_children_along_a_rail() {
    let h = Handle { index: 0 };
    let tree = parser::seq(vec![
        take(6).chain(trimr().eq_str("ATOM")),
        take(5).chain(trim().to_i32().store(h)),
        skip(1),
        take(1).chain(opt(to_u8().store(h))),
        take(1).chain(to_byte().store(h)),
    ]);
    assert_eq!(
        print(&tree),
        "seq -|- take 6 -> trimr -> eq ATOM\n     \
         |- take 5 -> trim -> to_i32 -> store\n     \
         |- skip 1\n     \
         |- take 1 -> opt <to_u8 -> store>\n     \
         |- take 1 -> to_byte -> store\n"
    );
    assert_eq!(print(&parser::seq(vec![])), "seq -|- ");
}

#[test]
fn nested_sequence_turns_the_outer_branch_into_a_rail() {
    let tree = parser::seq(vec![take(1), parser::seq(vec![skip(2), skip(3)]), skip(4)]);
    assert_eq!(
        print(&tree),
        "seq -|- take 1\n     |- seq -|- skip 2\n     |       |- skip 3\n     |- skip 4\n"
    );
}

#[test]
fn rendering_appends_to_what_is_there() {
    let mut out = String::from("> ");
    print_aux(&skip(3), &Indent::new(), &mut out);
    assert_eq!(out, "> skip 3\n");
    let mut out = String::from("> ");
    print_chain(&trim().to_u8(), &Indent::new(), false, false, &mut out);
    assert_eq!(out, ">  -> trim -> to_u8\n");
    let mut out = String::from("> ");
    print_chain(&neqs("x".to_string()), &Indent::new(), true, true, &mut out);
    assert_eq!(out, "> neq x>\n");
    let mut out = String::from("> ");
    print_branches(&vec![trim(), eq_str("a")], &margin(&[Indentation::BlockEnd(1)]), &mut out);
    assert_eq!(out, "> trim\n  |- eq a\n");
}
