use sphinx_lang::parser::binop::BinaryOp;
use sphinx_lang::runtime::errors::{ErrorKind, ExecResult};
use sphinx_lang::runtime::ops::{eval_binary, eval_bits, eval_integers, truth};
use sphinx_lang::runtime::strings::StringTable;
use sphinx_lang::runtime::variant::{TypeTag, Variant};

fn integer(result: Option<ExecResult<Variant>>) -> i64 {
    match result {
        Some(Ok(Variant::Integer(value))) => value,
        other => panic!("unexpected {:?}", other),
    }
}

fn boolean(result: Option<ExecResult<Variant>>) -> bool {
    match result {
        Some(Ok(Variant::BoolTrue)) => true,
        Some(Ok(Variant::BoolFalse)) => false,
        other => panic!("unexpected {:?}", other),
    }
}

#[test]
fn one_plus_two_is_three() {
    let mut table = StringTable::new();
    let sum = eval_binary(BinaryOp::Add, &Variant::Integer(1), &Variant::Integer(2), &mut table);
    let sum = sum.unwrap().unwrap();
    assert_eq!(sum.echo(&table).into_text().unwrap(), "3");
    let x = Variant::Integer(10);
    let square = eval_binary(BinaryOp::Mul, &x, &x, &mut table).unwrap().unwrap();
    assert_eq!(square.echo(&table).into_text().unwrap(), "100");
}

#[test]
fn integers_are_computed_as_rust_computes_them() {
    let samples = [i64::MIN, i64::MIN + 1, -1000, -64, -7, -3, -2, -1, 0, 1, 2, 3, 7, 63, 64, 1000, i64::MAX - 1, i64::MAX];
    for a in samples {
        for b in samples {
            for (op, expected) in [
                (BinaryOp::Add, a.checked_add(b)),
                (BinaryOp::Sub, a.checked_sub(b)),
                (BinaryOp::Mul, a.checked_mul(b)),
            ] {
                match (eval_integers(op, a, b), expected) {
                    (Some(Ok(Variant::Integer(found))), Some(value)) => assert_eq!(found, value),
                    (Some(Err(error)), None) => assert!(matches!(error.kind(), ErrorKind::OverflowError)),
                    (found, _) => panic!("{:?} on {} and {}: {:?}", op, a, b, found),
                }
            }
            if b == 0 {
                for op in [BinaryOp::Div, BinaryOp::Mod] {
                    let error = eval_integers(op, a, b).unwrap().unwrap_err();
                    assert!(matches!(error.kind(), ErrorKind::DivideByZero));
                }
            } else if a == i64::MIN && b == -1 {
                let error = eval_integers(BinaryOp::Div, a, b).unwrap().unwrap_err();
                assert!(matches!(error.kind(), ErrorKind::OverflowError));
                assert_eq!(integer(eval_integers(BinaryOp::Mod, a, b)), 0);
            } else {
                assert_eq!(integer(eval_integers(BinaryOp::Div, a, b)), a / b);
                assert_eq!(integer(eval_integers(BinaryOp::Mod, a, b)), a % b);
            }
            if b < 0 {
                for op in [BinaryOp::LShift, BinaryOp::RShift] {
                    let error = eval_integers(op, a, b).unwrap().unwrap_err();
                    assert!(matches!(error.kind(), ErrorKind::NegativeShiftCount));
                }
            } else if b >= 64 {
                assert_eq!(integer(eval_integers(BinaryOp::LShift, a, b)), 0);
                assert_eq!(integer(eval_integers(BinaryOp::RShift, a, b)), if a < 0 { -1 } else { 0 });
            } else {
                assert_eq!(integer(eval_integers(BinaryOp::LShift, a, b)), a << b);
                assert_eq!(integer(eval_integers(BinaryOp::RShift, a, b)), a >> b);
            }
            assert_eq!(boolean(eval_integers(BinaryOp::LT, a, b)), a < b);
            assert_eq!(boolean(eval_integers(BinaryOp::GT, a, b)), a > b);
            assert_eq!(boolean(eval_integers(BinaryOp::LE, a, b)), a <= b);
            assert_eq!(boolean(eval_integers(BinaryOp::GE, a, b)), a >= b);
            assert_eq!(boolean(eval_integers(BinaryOp::EQ, a, b)), a == b);
            assert_eq!(boolean(eval_integers(BinaryOp::NE, a, b)), a != b);
            assert_eq!(eval_bits(BinaryOp::BitAnd, a, b), Some(a & b));
            assert_eq!(eval_bits(BinaryOp::BitXor, a, b), Some(a ^ b));
            assert_eq!(eval_bits(BinaryOp::BitOr, a, b), Some(a | b));
            assert_eq!(eval_bits(BinaryOp::Add, a, b), None);
            assert!(eval_integers(BinaryOp::BitAnd, a, b).is_none());
            assert!(eval_integers(BinaryOp::And, a, b).is_none());
        }
    }
    assert_eq!(integer(eval_integers(BinaryOp::Div, 7, 2)), 3);
    assert_eq!(integer(eval_integers(BinaryOp::Div, -7, 2)), -3);
    assert_eq!(integer(eval_integers(BinaryOp::Mod, -7, 2)), -1);
    assert_eq!(integer(eval_integers(BinaryOp::Mod, 7, -2)), 1);
    assert_eq!(integer(eval_integers(BinaryOp::LShift, 1, 63)), i64::MIN);
    assert_eq!(integer(eval_integers(BinaryOp::LShift, 3, 62)), -0x4000_0000_0000_0000);
    assert_eq!(integer(eval_integers(BinaryOp::RShift, -5, 1)), -3);
}

#[test]
fn errors_of_the_operators() {
    let mut table = StringTable::new();
    let one = Variant::Integer(1);
    let error = eval_binary(BinaryOp::Div, &one, &Variant::Integer(0), &mut table).unwrap().unwrap_err();
    assert!(matches!(error.kind(), ErrorKind::DivideByZero));
    let error = eval_binary(BinaryOp::LShift, &one, &Variant::Integer(-1), &mut table).unwrap().unwrap_err();
    assert!(matches!(error.kind(), ErrorKind::NegativeShiftCount));
    let a = Variant::String(table.get_or_intern("a"));
    let error = eval_binary(BinaryOp::Add, &a, &one, &mut table).unwrap().unwrap_err();
    assert!(matches!(
        error.kind(),
        ErrorKind::InvalidBinaryOperand(TypeTag::String, TypeTag::Integer)
    ));
    assert_eq!(
        error.message(&table).into_text().unwrap(),
        "Runtime error: unsupported operands: 'string' and 'int'"
    );
    let error = eval_binary(BinaryOp::Sub, &Variant::Nil, &Variant::BoolTrue, &mut table).unwrap().unwrap_err();
    assert!(matches!(error.kind(), ErrorKind::InvalidBinaryOperand(TypeTag::Nil, TypeTag::Bool)));
    let error = eval_binary(BinaryOp::Mul, &a, &a, &mut table).unwrap().unwrap_err();
    assert!(matches!(error.kind(), ErrorKind::InvalidBinaryOperand(TypeTag::String, TypeTag::String)));
    let error = eval_binary(BinaryOp::BitOr, &one, &Variant::Nil, &mut table).unwrap().unwrap_err();
    assert!(matches!(error.kind(), ErrorKind::InvalidBinaryOperand(TypeTag::Integer, TypeTag::Nil)));
    let error = eval_binary(BinaryOp::Add, &Variant::Integer(i64::MAX), &one, &mut table).unwrap().unwrap_err();
    assert!(matches!(error.kind(), ErrorKind::OverflowError));
}

#[test]
fn strings_are_joined_and_compared() {
    let mut table = StringTable::new();
    let a = Variant::String(table.get_or_intern("ab"));
    let b = Variant::String(table.get_or_intern("b"));
    match eval_binary(BinaryOp::Add, &a, &b, &mut table) {
        Some(Ok(Variant::String(sum))) => assert_eq!(table.resolve(&sum), "abb"),
        other => panic!("unexpected {:?}", other),
    }
    assert!(boolean(eval_binary(BinaryOp::LT, &a, &b, &mut table)));
    assert!(!boolean(eval_binary(BinaryOp::GT, &a, &b, &mut table)));
    assert!(boolean(eval_binary(BinaryOp::LE, &a, &a, &mut table)));
    assert!(boolean(eval_binary(BinaryOp::GE, &a, &a, &mut table)));
    assert!(!boolean(eval_binary(BinaryOp::LT, &a, &a, &mut table)));
    assert!(boolean(eval_binary(BinaryOp::GE, &b, &a, &mut table)));
    assert!(boolean(eval_binary(BinaryOp::EQ, &a, &a, &mut table)));
    assert!(boolean(eval_binary(BinaryOp::NE, &a, &b, &mut table)));
    assert!(!boolean(eval_binary(BinaryOp::EQ, &a, &Variant::Integer(1), &mut table)));
}

#[test]
fn other_operators_on_values() {
    let mut table = StringTable::new();
    let yes = Variant::BoolTrue;
    let no = Variant::BoolFalse;
    let five = Variant::Integer(5);
    assert!(boolean(eval_binary(BinaryOp::BitOr, &yes, &no, &mut table)));
    assert!(!boolean(eval_binary(BinaryOp::BitAnd, &yes, &no, &mut table)));
    assert!(!boolean(eval_binary(BinaryOp::BitXor, &yes, &yes, &mut table)));
    assert_eq!(integer(eval_binary(BinaryOp::BitAnd, &five, &yes, &mut table)), 5);
    assert_eq!(integer(eval_binary(BinaryOp::BitAnd, &five, &no, &mut table)), 0);
    assert_eq!(integer(eval_binary(BinaryOp::BitXor, &five, &Variant::Integer(3), &mut table)), 6);
    // `and` and `or` give the operand that decides
    assert_eq!(integer(eval_binary(BinaryOp::And, &yes, &five, &mut table)), 5);
    assert!(matches!(eval_binary(BinaryOp::And, &Variant::Nil, &five, &mut table), Some(Ok(Variant::Nil))));
    assert_eq!(integer(eval_binary(BinaryOp::Or, &no, &five, &mut table)), 5);
    assert_eq!(integer(eval_binary(BinaryOp::Or, &five, &Variant::Nil, &mut table)), 5);
    let pair = Variant::make_tuple(vec![five.duplicate(), Variant::Nil]);
    assert!(boolean(eval_binary(BinaryOp::EQ, &pair, &pair.duplicate(), &mut table)));
    assert!(boolean(eval_binary(BinaryOp::NE, &pair, &five, &mut table)));
    assert!(boolean(eval_binary(BinaryOp::EQ, &Variant::Nil, &Variant::Nil, &mut table)));
    // floats are left to the host
    let half = Variant::Float(0.5f64.to_le_bytes());
    assert!(eval_binary(BinaryOp::Add, &half, &five, &mut table).is_none());
    assert!(eval_binary(BinaryOp::EQ, &five, &half, &mut table).is_none());
    let holds = Variant::make_tuple(vec![half]);
    assert!(eval_binary(BinaryOp::EQ, &holds, &five, &mut table).is_none());
    assert!(matches!(truth(true), Variant::BoolTrue));
    assert!(matches!(truth(false), Variant::BoolFalse));
}
