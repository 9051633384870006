use sphinx_lang::runtime::cells::{CellStore, FrameCloser};
use sphinx_lang::runtime::errors::ErrorKind;
use sphinx_lang::runtime::function::{Closure, Upvalue};
use sphinx_lang::runtime::gc::CellRef;
use sphinx_lang::runtime::globals::GlobalEnv;
use sphinx_lang::runtime::strings::StringTable;
use sphinx_lang::runtime::variant::Variant;

#[test]
fn closures_share_the_cell_of_a_variable() {
    // a frame from slot 1 on: the getter and the setter both caught slot 2
    let stack = vec![Variant::Nil, Variant::Integer(10), Variant::Integer(20), Variant::Integer(30)];
    let mut cells = CellStore::new();
    let mut getter = Upvalue::new(2);
    let mut setter = Upvalue::new(2);
    let mut other = Upvalue::new(3);
    let mut outer = Upvalue::new(0);
    let mut closed_before = Upvalue::new(1);
    closed_before.close(CellRef { index: 9 });

    let mut closer = FrameCloser::new(1, stack.len());
    closer.close(&mut getter, &stack, &mut cells);
    closer.close(&mut other, &stack, &mut cells);
    closer.close(&mut setter, &stack, &mut cells);
    closer.close(&mut outer, &stack, &mut cells);
    closer.close(&mut closed_before, &stack, &mut cells);

    // both closures hold the one cell of the variable, with its value
    let cell = match getter.closure() {
        Closure::Closed(cell) => cell,
        open => panic!("still open: {:?}", open),
    };
    assert_eq!(setter.closure(), Closure::Closed(cell));
    assert_ne!(other.closure(), Closure::Closed(cell));
    assert!(other.closure().is_closed());
    assert_eq!(cells.len(), 2);
    assert!(matches!(cells.get(cell), Variant::Integer(20)));
    // a slot below the frame stays open, a closed upvalue stays as it is
    assert_eq!(outer.closure(), Closure::Open(0));
    assert_eq!(closed_before.closure(), Closure::Closed(CellRef { index: 9 }));

    // what the setter stores, the getter loads
    if let Closure::Closed(target) = setter.closure() {
        cells.set(target, Variant::Integer(21));
    }
    if let Closure::Closed(source) = getter.closure() {
        assert!(matches!(cells.get(source), Variant::Integer(21)));
    }
    if let Closure::Closed(untouched) = other.closure() {
        assert!(matches!(cells.get(untouched), Variant::Integer(30)));
    }
}

#[test]
fn cells_hold_what_was_put_in_them() {
    let mut cells = CellStore::new();
    assert_eq!(cells.len(), 0);
    let first = cells.allocate(Variant::Nil);
    let second = cells.allocate(Variant::BoolTrue);
    assert_eq!((first, second), (CellRef { index: 0 }, CellRef { index: 1 }));
    cells.set(first, Variant::Integer(5));
    assert!(matches!(cells.get(first), Variant::Integer(5)));
    assert!(matches!(cells.get(second), Variant::BoolTrue));
}

#[test]
fn globals_are_declared_loaded_and_stored() {
    let mut table = StringTable::new();
    let x = table.get_or_intern("x");
    let y = table.get_or_intern("y");
    let z = table.get_or_intern("zed");
    let mut env = GlobalEnv::new();

    let error = env.load(x, &table).unwrap_err();
    assert!(matches!(error.kind(), ErrorKind::NameNotDefined(name) if name == "x"));
    assert_eq!(error.message(&table).into_text().unwrap(), "Runtime error: undefined variable \"x\"");
    let error = env.store(z, Variant::Nil, &table).unwrap_err();
    assert!(matches!(error.kind(), ErrorKind::NameNotDefined(name) if name == "zed"));

    env.insert(x, Variant::Integer(1), true);
    env.insert(y, Variant::Integer(2), false);
    assert!(matches!(env.load(x, &table), Ok(Variant::Integer(1))));
    assert!(matches!(env.load(y, &table), Ok(Variant::Integer(2))));

    assert!(env.store(x, Variant::Integer(10), &table).is_ok());
    assert!(matches!(env.load(x, &table), Ok(Variant::Integer(10))));
    let error = env.store(y, Variant::Integer(20), &table).unwrap_err();
    assert!(matches!(error.kind(), ErrorKind::CantAssignImmutable));
    assert!(matches!(env.load(y, &table), Ok(Variant::Integer(2))));

    // a second declaration replaces the first
    env.insert(y, Variant::BoolTrue, true);
    assert!(env.store(y, Variant::Nil, &table).is_ok());
    assert!(matches!(env.load(y, &table), Ok(Variant::Nil)));
    assert!(matches!(env.load(x, &table), Ok(Variant::Integer(10))));
    assert!(env.load(z, &table).is_err());
}
