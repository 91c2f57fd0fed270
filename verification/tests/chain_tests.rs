use fieldparse::chain;
use fieldparse::chain::{Chain, Operation};
use fieldparse::slots::Handle;

fn name(op: &Operation) -> String {
    match op {
        Operation::Trim => "trim".to_string(),
        Operation::TrimL => "triml".to_string(),
        Operation::TrimR => "trimr".to_string(),
        Operation::EqualString(s) => format!("eq {}", s),
        Operation::NotEqualString(s) => format!("neq {}", s),
        Operation::Empty => "empty".to_string(),
        Operation::ToI32 => "to_i32".to_string(),
        Operation::ToF64 => "to_f64".to_string(),
        Operation::ToU8 => "to_u8".to_string(),
        Operation::ToByte => "to_byte".to_string(),
        Operation::Or(chains) => format!("or {}", chains.len()),
        Operation::Store(handle) => format!("store {}", handle.index),
        Operation::Opt(inner) => format!("opt {}", inner.olist.len()),
    }
}

fn names(chain: &Chain) -> Vec<String> {
    chain.olist.iter().map(name).collect()
}

#[test]
fn new_chain_is_empty() {
    assert!(Chain::new().olist.is_empty());
}

#[test]
fn free_builders_make_chains_of_one_step() {
    let h = Handle { index: 3 };
    assert_eq!(names(&chain::to_byte()), vec!["to_byte"]);
    assert_eq!(names(&chain::to_u8()), vec!["to_u8"]);
    assert_eq!(names(&chain::to_i32()), vec!["to_i32"]);
    assert_eq!(names(&chain::to_f64()), vec!["to_f64"]);
    assert_eq!(names(&chain::empty()), vec!["empty"]);
    assert_eq!(names(&chain::trim()), vec!["trim"]);
    assert_eq!(names(&chain::triml()), vec!["triml"]);
    assert_eq!(names(&chain::trimr()), vec!["trimr"]);
    assert_eq!(names(&chain::eqs("a".to_string())), vec!["eq a"]);
    assert_eq!(names(&chain::eq_str("b")), vec!["eq b"]);
    assert_eq!(names(&chain::neqs("c".to_string())), vec!["neq c"]);
    assert_eq!(names(&chain::neq_str("d")), vec!["neq d"]);
    assert_eq!(names(&chain::or(vec![chain::trim(), chain::empty()])), vec!["or 2"]);
    assert_eq!(names(&chain::opt(chain::trim().to_u8())), vec!["opt 2"]);
    assert_eq!(names(&chain::store(h)), vec!["store 3"]);
}

#[test]
fn methods_append_in_order() {
    let h = Handle { index: 1 };
    let c = Chain::new()
        .trim()
        .triml()
        .trimr()
        .eqs("a".to_string())
        .eq_str("b")
        .neqs("c".to_string())
        .neq_str("d")
        .empty()
        .or(vec![chain::to_u8()])
        .to_byte()
        .to_u8()
        .to_i32()
        .to_f64()
        .store(h)
        .opt(chain::trim());
    assert_eq!(
        names(&c),
        vec![
            "trim", "triml", "trimr", "eq a", "eq b", "neq c", "neq d", "empty", "or 1", "to_byte",
            "to_u8", "to_i32", "to_f64", "store 1", "opt 1",
        ]
    );
}

#[test]
fn nested_chains_are_kept_whole() {
    let c = chain::or(vec![chain::trim().to_i32(), chain::opt(chain::to_u8())]);
    match &c.olist[0] {
        Operation::Or(chains) => {
            assert_eq!(names(&chains[0]), vec!["trim", "to_i32"]);
            assert_eq!(names(&chains[1]), vec!["opt 1"]);
        }
        _ => panic!("not an alternative"),
    }
}
