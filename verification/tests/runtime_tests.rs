use sphinx_lang::debug::traceback::TraceSite;
use sphinx_lang::runtime::echo::{Piece, Rendering};
use sphinx_lang::runtime::errors::{ErrorKind, RuntimeError};
use sphinx_lang::runtime::function::signature::{Parameter, Signature};
use sphinx_lang::runtime::function::{Call, Closure, Function, NativeFn, NativeFunction, Upvalue};
use sphinx_lang::runtime::gc::{CellRef, GC};
use sphinx_lang::runtime::module::{FunctionProto, Module};
use sphinx_lang::runtime::strings::{
    InternSymbol, Interner, StringKey, StringTable, StringValue, SYMBOL_LIMIT,
};
use sphinx_lang::runtime::types::string::chars_lt;
use sphinx_lang::runtime::types::tuple::Tuple;
use sphinx_lang::runtime::types::{MethodTag, Metatable};
use sphinx_lang::runtime::variant::{same_value, TypeTag, Variant, VariantKey, AUTO_INTERN_MAX};
use sphinx_lang::utils::{decimal_text, write_signed_decimal};

fn text_of(out: &Rendering) -> String {
    let mut text = String::new();
    for piece in out.pieces() {
        match piece {
            Piece::Text(part) => text.push_str(part),
            Piece::Float(bytes) => text.push_str(&format!("{:?}", f64::from_le_bytes(*bytes))),
        }
    }
    text
}

fn float(value: f64) -> Variant {
    Variant::Float(value.to_le_bytes())
}

fn signature(table: &mut StringTable, name: Option<&str>, required: &[&str], default: &[&str], variadic: Option<&str>) -> Signature {
    let name = name.map(|name| table.get_or_intern(name));
    let required = required.iter().map(|name| Parameter::new(table.get_or_intern(name), false)).collect();
    let default = default.iter().map(|name| Parameter::new(table.get_or_intern(name), true)).collect();
    let variadic = variadic.map(|name| Parameter::new(table.get_or_intern(name), false));
    Signature::new(name, required, default, variadic)
}

#[test]
fn interner_gives_each_string_one_symbol() {
    let mut interner = Interner::new();
    assert_eq!(interner.len(), 0);
    let a = interner.get_or_intern("alpha");
    let b = interner.get_or_intern("beta");
    let empty = interner.get_or_intern("");
    assert_eq!((a.to_usize(), b.to_usize(), empty.to_usize()), (0, 1, 2));
    assert_eq!(interner.get_or_intern("alpha"), a);
    assert_eq!(interner.try_get_or_intern("beta"), Some(b));
    assert_eq!(interner.len(), 3);
    assert_eq!(interner.resolve(a), Some("alpha"));
    assert_eq!(interner.resolve(b), Some("beta"));
    assert_eq!(interner.resolve(empty), Some(""));
    assert_eq!(interner.resolve(InternSymbol::try_from_usize(3).unwrap()), None);
    assert_eq!(interner.get("beta"), Some(b));
    assert_eq!(interner.get("gamma"), None);
    assert_eq!(interner.len(), 3);

    assert_eq!(InternSymbol::try_from_usize(SYMBOL_LIMIT), None);
    assert_eq!(InternSymbol::try_from_usize(SYMBOL_LIMIT - 1).unwrap().to_usize(), SYMBOL_LIMIT - 1);
}

#[test]
fn string_table_only_grows() {
    let mut table = StringTable::new();
    let first = table.get_or_intern("one");
    let second = table.get_or_intern("two");
    assert_eq!(table.get_or_intern("one"), first);
    assert_eq!(table.len(), 2);
    assert_eq!(table.resolve(&first), "one");
    assert_eq!(table.resolve(&second), "two");
    assert_eq!(table.get("two"), Some(second));
    assert_eq!(table.get("three"), None);
    let third = table.borrow_interner_mut().get_or_intern("three");
    assert_eq!(table.resolve(&third), "three");
    assert_eq!(table.resolve(&first), "one");
    assert_eq!(table.len(), 3);
}

#[test]
fn string_values_compare_and_join() {
    let mut table = StringTable::new();
    let a = StringValue::from(table.get_or_intern("a"));
    let b = StringValue::from(table.get_or_intern("b"));
    assert_eq!(a.try_eq(&a), Some(true));
    assert_eq!(a.try_eq(&b), Some(false));
    assert_eq!(a.type_tag(), TypeTag::String);
    let mut buf = String::from(">");
    a.write_str(&mut buf, &table);
    b.write_str(&mut buf, &table);
    assert_eq!(buf, ">ab");

    let ab = a.concat(&b, &mut table);
    assert_eq!(table.resolve(&ab.symbol_of()), "ab");
    assert_eq!(a.concat(&b, &mut table), ab);
    assert_eq!(ab.char_len(&table), 2);
    assert!(matches!(ab.len(&table), Some(Ok(2))));
    let accent = StringValue::from(table.get_or_intern("héé"));
    assert_eq!(accent.char_len(&table), 3);

    let b_value = Variant::String(b.symbol_of());
    match a.op_add(&b_value, &mut table) {
        Some(Ok(Variant::String(sum))) => assert_eq!(table.resolve(&sum), "ab"),
        other => panic!("unexpected {:?}", other),
    }
    match a.op_radd(&b_value, &mut table) {
        Some(Ok(Variant::String(sum))) => assert_eq!(table.resolve(&sum), "ba"),
        other => panic!("unexpected {:?}", other),
    }
    // a string and a number do not add
    assert!(a.op_add(&Variant::Integer(1), &mut table).is_none());
    assert!(a.op_radd(&Variant::Nil, &mut table).is_none());

    assert!(matches!(a.cmp_eq(&Variant::String(a.symbol_of())), Some(Ok(true))));
    assert!(matches!(a.cmp_eq(&b_value), Some(Ok(false))));
    assert!(a.cmp_eq(&Variant::Integer(1)).is_none());
    assert!(matches!(a.cmp_lt(&b_value, &table), Some(Ok(true))));
    assert!(matches!(b.cmp_lt(&Variant::String(a.symbol_of()), &table), Some(Ok(false))));
    assert!(matches!(a.cmp_lt(&Variant::String(a.symbol_of()), &table), Some(Ok(false))));
    assert!(matches!(a.cmp_le(&Variant::String(a.symbol_of()), &table), Some(Ok(true))));
    assert!(matches!(a.cmp_lt(&Variant::String(ab.symbol_of()), &table), Some(Ok(true))));
    assert!(matches!(ab.cmp_le(&Variant::String(a.symbol_of()), &table), Some(Ok(false))));
    assert!(a.cmp_lt(&Variant::BoolTrue, &table).is_none());
    assert!(a.cmp_le(&Variant::EmptyTuple, &table).is_none());
}

#[test]
fn the_order_of_strings_is_the_order_of_str() {
    let words = ["", "a", "ab", "abc", "b", "B", "é", "z", "zz", "ab\u{10FFFF}", "a\u{7F}"];
    for a in words {
        for b in words {
            let left: Vec<char> = a.chars().collect();
            let right: Vec<char> = b.chars().collect();
            assert_eq!(chars_lt(&left, &right), a < b, "{:?} < {:?}", a, b);
        }
    }
}

#[test]
fn string_keys_are_told_apart_by_their_symbols() {
    let mut table = StringTable::new();
    let a = table.get_or_intern("a");
    let b = table.get_or_intern("b");
    let hasher = std::collections::hash_map::RandomState::new();
    let key = StringKey::from_intern(a, &table, &hasher);
    let same = StringKey::new(StringValue::Intern(a), &table, &hasher);
    let other = StringKey::from_intern(b, &table, &hasher);
    assert!(key == same);
    assert!(key != other);
    assert_eq!(key.value(), StringValue::Intern(a));
    let (StringKey::Intern { hash: first, .. }, StringKey::Intern { hash: second, .. }) = (key, same);
    assert_eq!(first, second);
    let mut buf = String::new();
    other.write_str(&mut buf, &table);
    assert_eq!(buf, "b");
}

#[test]
fn values_have_types_and_truth() {
    let mut table = StringTable::new();
    let text = Variant::String(table.get_or_intern("x"));
    let tuple = Variant::make_tuple(vec![Variant::Integer(1), Variant::Nil]);
    let values = [
        (Variant::Nil, TypeTag::Nil, false, None),
        (Variant::EmptyTuple, TypeTag::Tuple, true, None),
        (Variant::BoolTrue, TypeTag::Bool, true, Some(-1)),
        (Variant::BoolFalse, TypeTag::Bool, false, Some(0)),
        (Variant::Integer(0), TypeTag::Integer, true, Some(0)),
        (Variant::Integer(-7), TypeTag::Integer, true, Some(-7)),
        (float(0.0), TypeTag::Float, true, None),
        (text, TypeTag::String, true, None),
        (tuple, TypeTag::Tuple, true, None),
    ];
    for (value, tag, truth, bits) in values.iter() {
        assert_eq!(value.type_tag(), *tag);
        assert_eq!(value.truth_value(), *truth);
        assert_eq!(value.bit_value(), *bits);
        let table_of = if *tag == TypeTag::String { Metatable::String } else { Metatable::Default };
        assert_eq!(value.metatable(), table_of);
    }
    assert!(matches!(Variant::from(true), Variant::BoolTrue));
    assert!(matches!(Variant::from(false), Variant::BoolFalse));
    assert!(matches!(Variant::from(5i64), Variant::Integer(5)));
    assert_eq!(TypeTag::Integer.name(), "int");
    assert_eq!(TypeTag::String.name(), "string");
    assert_eq!(MethodTag::Invoke.name(), "call");
}

#[test]
fn floats_cannot_be_keys() {
    assert!(Variant::Nil.can_hash());
    assert!(Variant::Integer(3).can_hash());
    assert!(!float(1.0).can_hash());
    assert!(Variant::make_tuple(vec![Variant::Integer(1), Variant::BoolTrue]).can_hash());
    assert!(!Variant::make_tuple(vec![Variant::Integer(1), float(2.0)]).can_hash());
    let nested = Variant::make_tuple(vec![
        Variant::Nil,
        Variant::make_tuple(vec![Variant::EmptyTuple, float(0.5)]),
    ]);
    assert!(!nested.can_hash());

    let value = Variant::make_tuple(vec![Variant::Integer(1), Variant::Integer(2)]);
    let key = VariantKey::try_new(&value).unwrap();
    assert!(same_value(key.value(), &value));
    let error = VariantKey::try_new(&nested).unwrap_err();
    match error.kind() {
        ErrorKind::UnhashableValue(held) => assert!(matches!(held, Variant::Tuple(items) if items.len() == 2)),
        other => panic!("unexpected {:?}", other),
    }
    assert!(error.traceback().is_empty());
}

#[test]
fn keys_are_equal_item_by_item() {
    let one = Variant::make_tuple(vec![Variant::Integer(1), Variant::make_tuple(vec![Variant::Nil])]);
    let same = one.clone();
    let other = Variant::make_tuple(vec![Variant::Integer(1), Variant::make_tuple(vec![Variant::BoolTrue])]);
    let shorter = Variant::make_tuple(vec![Variant::Integer(1)]);
    assert!(VariantKey::try_new(&one).unwrap() == VariantKey::try_new(&same).unwrap());
    assert!(VariantKey::try_new(&one).unwrap() != VariantKey::try_new(&other).unwrap());
    assert!(VariantKey::try_new(&one).unwrap() != VariantKey::try_new(&shorter).unwrap());
    assert!(same_value(&Variant::Nil, &Variant::Nil));
    assert!(same_value(&Variant::Integer(4), &Variant::Integer(4)));
    assert!(!same_value(&Variant::Integer(4), &Variant::Integer(5)));
    assert!(!same_value(&Variant::BoolTrue, &Variant::BoolFalse));
    assert!(!same_value(&Variant::Integer(1), &Variant::BoolTrue));
    assert!(!same_value(&Variant::EmptyTuple, &Variant::make_tuple(vec![])));
    let a = Variant::String(InternSymbol::try_from_usize(0).unwrap());
    let b = Variant::String(InternSymbol::try_from_usize(1).unwrap());
    assert!(same_value(&a, &a.duplicate()));
    assert!(!same_value(&a, &b));
}

#[test]
fn short_text_is_interned_long_text_is_looked_up() {
    let mut table = StringTable::new();
    let short = "x".repeat(AUTO_INTERN_MAX);
    let long = "y".repeat(AUTO_INTERN_MAX + 1);
    match Variant::from_text(&short, &mut table) {
        Some(Variant::String(symbol)) => assert_eq!(table.resolve(&symbol), short),
        other => panic!("unexpected {:?}", other),
    }
    assert_eq!(table.len(), 1);
    assert!(Variant::from_text(&long, &mut table).is_none());
    assert_eq!(table.len(), 1);
    let held = table.get_or_intern(&long);
    assert!(matches!(Variant::from_text(&long, &mut table), Some(Variant::String(symbol)) if symbol == held));
}

#[test]
fn values_are_shown() {
    let mut table = StringTable::new();
    let text = Variant::String(table.get_or_intern("hi there"));
    assert_eq!(Variant::Nil.echo(&table).into_text().unwrap(), "nil");
    assert_eq!(Variant::EmptyTuple.echo(&table).into_text().unwrap(), "()");
    assert_eq!(Variant::BoolTrue.echo(&table).into_text().unwrap(), "true");
    assert_eq!(Variant::BoolFalse.echo(&table).into_text().unwrap(), "false");
    assert_eq!(Variant::Integer(3).echo(&table).into_text().unwrap(), "3");
    assert_eq!(Variant::Integer(100).display(&table).into_text().unwrap(), "100");
    assert_eq!(Variant::Integer(-45).echo(&table).into_text().unwrap(), "-45");
    assert_eq!(
        Variant::Integer(i64::MIN).echo(&table).into_text().unwrap(),
        "-9223372036854775808"
    );
    assert_eq!(Variant::Integer(i64::MAX).echo(&table).into_text().unwrap(), i64::MAX.to_string());
    assert_eq!(text.echo(&table).into_text().unwrap(), "\"hi there\"");
    assert_eq!(text.display(&table).into_text().unwrap(), "hi there");

    let tuple = Variant::make_tuple(vec![
        Variant::Integer(1),
        text.duplicate(),
        Variant::make_tuple(vec![Variant::Nil]),
        Variant::make_tuple(vec![]),
    ]);
    assert_eq!(tuple.echo(&table).into_text().unwrap(), "(1, \"hi there\", (nil), ())");
    assert_eq!(tuple.display(&table).into_text().unwrap(), "(1, hi there, (nil), ())");

    // a float is left for the caller to format
    let out = float(1.5).echo(&table);
    assert!(matches!(out.pieces().as_slice(), [Piece::Float(bytes)] if f64::from_le_bytes(*bytes) == 1.5));
    assert!(out.into_text().is_none());
    let mixed = Variant::make_tuple(vec![Variant::Integer(1), float(2.0), Variant::BoolTrue]);
    assert_eq!(text_of(&mixed.echo(&table)), "(1, 2.0, true)");
    assert!(mixed.echo(&table).into_text().is_none());
}

#[test]
fn a_rendering_joins_its_pieces() {
    let mut out = Rendering::new();
    assert_eq!(Rendering::new().into_text().unwrap(), "");
    out.push_str("a");
    out.push_str("");
    out.push_str("bc");
    assert_eq!(out.pieces().len(), 3);
    assert_eq!(out.into_text().unwrap(), "abc");
    let mut out = Rendering::new();
    out.push_str("x = ");
    out.push_float(0.25f64.to_le_bytes());
    assert_eq!(text_of(&out), "x = 0.25");
    assert!(out.into_text().is_none());
}

#[test]
fn tuples_have_a_length() {
    let table = StringTable::new();
    let empty = Tuple::from_items(vec![]);
    assert!(empty.is_empty());
    assert_eq!(empty.len(), 0);
    assert!(matches!(Tuple::default(), Tuple::Empty));
    assert_eq!(empty.fmt_echo(&table).into_text().unwrap(), "()");
    let tuple = Tuple::from_items(vec![Variant::Integer(1), Variant::Integer(2)]);
    assert!(!tuple.is_empty());
    assert_eq!(tuple.len(), 2);
    assert_eq!(tuple.type_tag(), TypeTag::Tuple);
    assert_eq!(tuple.fmt_echo(&table).into_text().unwrap(), "(1, 2)");
    assert_eq!(Tuple::from_items(vec![Variant::Nil]).fmt_echo(&table).into_text().unwrap(), "(nil)");
}

#[test]
fn calls_are_checked_against_the_signature() {
    let mut table = StringTable::new();
    let plain = signature(&mut table, Some("area"), &["w", "h"], &["unit"], None);
    assert_eq!(plain.min_arity(), 2);
    assert_eq!(plain.max_arity(), Some(3));
    assert_eq!(plain.display_short(&table), "area()");
    assert_eq!(plain.required().len(), 2);
    assert_eq!(plain.default()[0].name(), table.get("unit").unwrap());
    assert!(plain.default()[0].is_mutable());
    assert!(plain.variadic().is_none());

    let args = vec![Variant::Integer(1); 5];
    assert!(plain.check_args(&args[..2]).is_ok());
    assert!(plain.check_args(&args[..3]).is_ok());
    match plain.check_args(&args[..1]).unwrap_err().kind() {
        ErrorKind::MissingArguments { signature, nargs } => {
            assert_eq!(*nargs, 1);
            assert_eq!(signature.name(), plain.name());
            assert_eq!(signature.required(), plain.required());
            assert_eq!(signature.default(), plain.default());
            assert_eq!(signature.variadic(), plain.variadic());
        },
        other => panic!("unexpected {:?}", other),
    }
    match plain.check_args(&args[..4]).unwrap_err().kind() {
        ErrorKind::TooManyArguments { signature, nargs } => {
            assert_eq!(*nargs, 4);
            assert_eq!(signature.name(), plain.name());
            assert_eq!(signature.required(), plain.required());
        },
        other => panic!("unexpected {:?}", other),
    }

    let open = signature(&mut table, None, &["first"], &[], Some("rest"));
    assert_eq!(open.max_arity(), None);
    assert_eq!(open.display_short(&table), "<anonymous fun>");
    assert!(open.check_args(&args).is_ok());
    assert!(matches!(
        open.check_args(&args[..0]).unwrap_err().kind(),
        ErrorKind::MissingArguments { nargs: 0, .. }
    ));
    let copy = open.clone();
    assert_eq!(copy.variadic(), open.variadic());
}

#[test]
fn functions_tell_what_to_call() {
    let mut table = StringTable::new();
    let protos = vec![
        FunctionProto::new(signature(&mut table, Some("main"), &[], &[], None), 0, 0),
        FunctionProto::new(signature(&mut table, Some("pair"), &["a", "b"], &[], None), 4, 1),
    ];
    let module = GC::new(Module::new(protos));
    let function = Function::new(1, module.clone(), vec![Upvalue::new(3)]);
    assert_eq!(function.proto().chunk_id(), 4);
    assert_eq!(function.proto().fun_id(), 1);
    assert_eq!(function.signature().min_arity(), 2);
    assert_eq!(function.upvalues(), &[Upvalue::new(3)]);

    let args = vec![Variant::Nil; 3];
    match function.checked_call(&args[..2]).unwrap() {
        Call::Chunk(called, fun_id) => {
            assert_eq!(fun_id, 1);
            assert_eq!(called.data().get_function(1).chunk_id(), 4);
        },
        other => panic!("unexpected {:?}", other),
    }
    assert!(matches!(
        function.checked_call(&args[..1]).unwrap_err().kind(),
        ErrorKind::MissingArguments { nargs: 1, .. }
    ));
    assert!(matches!(
        function.checked_call(&args).unwrap_err().kind(),
        ErrorKind::TooManyArguments { nargs: 3, .. }
    ));
    assert_eq!(module.share().data().get_function(0).signature().min_arity(), 0);

    // a function keeps the cells of its closed upvalues alive, and no others
    assert!(function.trace().is_empty());
    let mut closed = Upvalue::new(0);
    closed.close(CellRef { index: 5 });
    let mut other = Upvalue::new(1);
    other.close(CellRef { index: 2 });
    let function = Function::new(0, module.clone(), vec![closed, Upvalue::new(7), other]);
    assert_eq!(function.trace(), vec![CellRef { index: 5 }, CellRef { index: 2 }]);
}

#[test]
fn native_functions_are_run_by_the_host() {
    let mut table = StringTable::new();
    let double = NativeFunction::new(
        signature(&mut table, Some("double"), &["x"], &[], None),
        Some(vec![Variant::Integer(0)]),
        NativeFn { id: 7 },
    );
    assert_eq!(double.signature().min_arity(), 1);
    assert_eq!(double.defaults().len(), 1);
    let host = |func: NativeFn, args: &[Variant]| match (func.id, &args[0]) {
        (7, Variant::Integer(x)) => Ok(Variant::Integer(2 * x)),
        _ => Err(RuntimeError::boxed(ErrorKind::Other("no such function".to_string()))),
    };
    assert!(matches!(double.invoke(&[Variant::Integer(21)], host), Ok(Variant::Integer(42))));
    assert!(matches!(
        double.invoke(&[], host).unwrap_err().kind(),
        ErrorKind::MissingArguments { nargs: 0, .. }
    ));
    assert!(matches!(
        double.invoke(&[Variant::Nil, Variant::Nil], host).unwrap_err().kind(),
        ErrorKind::TooManyArguments { nargs: 2, .. }
    ));

    let bare = NativeFunction::new(signature(&mut table, None, &[], &[], None), None, NativeFn { id: 1 });
    assert!(bare.defaults().is_empty());
    let handle = GC::new(bare);
    assert!(matches!(handle.checked_call(&[]), Ok(Call::Native(..))));
    assert!(matches!(
        handle.checked_call(&[Variant::Nil]).unwrap_err().kind(),
        ErrorKind::TooManyArguments { nargs: 1, .. }
    ));
}

#[test]
fn an_upvalue_is_closed_once_its_frame_is_gone() {
    let mut upvalue = Upvalue::new(2);
    assert_eq!(upvalue.closure(), Closure::Open(2));
    assert!(upvalue.closure().is_open());
    assert!(!upvalue.closure().is_closed());
    upvalue.close(CellRef { index: 5 });
    assert_eq!(upvalue.closure(), Closure::Closed(CellRef { index: 5 }));
    assert!(upvalue.closure().is_closed());
    assert!(!upvalue.closure().is_open());
}

#[test]
fn runtime_errors_collect_a_trace() {
    let error = RuntimeError::boxed(ErrorKind::AssertFailed);
    assert!(matches!(error.kind(), ErrorKind::AssertFailed));
    assert!(error.traceback().is_empty());
    assert!(error.source().is_none());
    let error = error
        .push_frame(TraceSite { chunk_id: 2, offset: 9 })
        .extend_trace(vec![TraceSite { chunk_id: 1, offset: 4 }, TraceSite { chunk_id: 0, offset: 30 }])
        .caused_by(RuntimeError::boxed(ErrorKind::DivideByZero));
    assert_eq!(
        error.traceback(),
        &vec![
            TraceSite { chunk_id: 2, offset: 9 },
            TraceSite { chunk_id: 1, offset: 4 },
            TraceSite { chunk_id: 0, offset: 30 }
        ]
    );
    assert!(matches!(error.kind(), ErrorKind::AssertFailed));
    assert!(matches!(error.source().unwrap().kind(), ErrorKind::DivideByZero));
    let plain = RuntimeError::from(ErrorKind::OverflowError);
    assert!(matches!(plain.kind(), ErrorKind::OverflowError));
}

#[test]
fn runtime_errors_have_messages() {
    let mut table = StringTable::new();
    let text = Variant::String(table.get_or_intern("a"));
    let two = signature(&mut table, Some("pair"), &["left", "right"], &[], None);
    let three = signature(&mut table, Some("trio"), &["a", "b", "c"], &["d"], None);
    let any = signature(&mut table, None, &["x"], &[], Some("rest"));
    let cases = vec![
        (ErrorKind::InvalidUnaryOperand(TypeTag::String), "unsupported operand: 'string'"),
        (
            ErrorKind::InvalidBinaryOperand(TypeTag::String, TypeTag::Integer),
            "unsupported operands: 'string' and 'int'",
        ),
        (ErrorKind::OverflowError, "integer overflow"),
        (ErrorKind::DivideByZero, "divide by zero"),
        (ErrorKind::NegativeShiftCount, "negative bitshift count"),
        (ErrorKind::NameNotDefined("x".to_string()), "undefined variable \"x\""),
        (ErrorKind::CantAssignImmutable, "can't assign to an immutable variable"),
        (ErrorKind::UnhashableValue(float(1.5)), "1.5 is not hashable"),
        (
            ErrorKind::UnhashableValue(Variant::make_tuple(vec![text.duplicate(), float(2.0)])),
            "(\"a\", 2.0) is not hashable",
        ),
        (ErrorKind::AssertFailed, "assertion failed"),
        (ErrorKind::InvalidValue(Variant::Integer(-1), String::new()), "invalid value -1"),
        (
            ErrorKind::InvalidValue(text.duplicate(), "expected a number".to_string()),
            "invalid value \"a\": expected a number",
        ),
        (ErrorKind::Other("something else".to_string()), "something else"),
        (
            ErrorKind::MethodNotSupported(TypeTag::Nil, MethodTag::AsBits),
            "can't interpret 'nil' as bitfield",
        ),
        (ErrorKind::MethodNotSupported(TypeTag::Nil, MethodTag::AsInt), "can't interpret 'nil' as int"),
        (
            ErrorKind::MethodNotSupported(TypeTag::Tuple, MethodTag::AsFloat),
            "can't interpret 'tuple' as float",
        ),
        (ErrorKind::MethodNotSupported(TypeTag::Integer, MethodTag::Invoke), "type 'int' is not callable"),
        (ErrorKind::MethodNotSupported(TypeTag::Bool, MethodTag::Next), "type 'bool' is not an iterator"),
        (ErrorKind::MethodNotSupported(TypeTag::Float, MethodTag::Iter), "type 'float' is not iterable"),
        (
            ErrorKind::MethodNotSupported(TypeTag::Object, MethodTag::Len),
            "type 'object' does not support '__len'",
        ),
        (
            ErrorKind::MissingArguments { signature: Box::new(two.clone()), nargs: 1 },
            "pair() missing 1 required argument: right",
        ),
        (
            ErrorKind::MissingArguments { signature: Box::new(three.clone()), nargs: 0 },
            "trio() missing 3 required arguments: a, b, c",
        ),
        (
            ErrorKind::MissingArguments { signature: Box::new(two.clone()), nargs: 5 },
            "pair() missing 0 required arguments: ",
        ),
        (
            ErrorKind::TooManyArguments { signature: Box::new(three), nargs: 12 },
            "trio() takes 4 arguments but 12 were given",
        ),
        (
            ErrorKind::TooManyArguments { signature: Box::new(any), nargs: 3 },
            "<anonymous fun> takes any number of arguments but 3 were given",
        ),
    ];
    for (kind, expected) in cases {
        let mut out = Rendering::new();
        kind.write_message(&table, &mut out);
        assert_eq!(text_of(&out), expected);
        let error = RuntimeError::new(kind);
        assert_eq!(text_of(&error.message(&table)), format!("Runtime error: {}", expected));
    }

    let error = RuntimeError::boxed(ErrorKind::Other("outer".to_string()))
        .caused_by(RuntimeError::boxed(ErrorKind::DivideByZero).caused_by(RuntimeError::boxed(ErrorKind::AssertFailed)));
    assert_eq!(
        error.message(&table).into_text().unwrap(),
        "Runtime error: outer: Runtime error: divide by zero: Runtime error: assertion failed"
    );
}

#[test]
fn numbers_are_written_in_decimal() {
    assert_eq!(decimal_text(0), "0");
    assert_eq!(decimal_text(7), "7");
    assert_eq!(decimal_text(10), "10");
    assert_eq!(decimal_text(1234567890), "1234567890");
    assert_eq!(decimal_text(u64::MAX), "18446744073709551615");
    let mut text = String::from("n=");
    write_signed_decimal(-120, &mut text);
    write_signed_decimal(0, &mut text);
    write_signed_decimal(9, &mut text);
    assert_eq!(text, "n=-12009");
}
