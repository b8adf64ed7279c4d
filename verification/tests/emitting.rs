use marin::binary::listing::read_listing;
use marin::binary::opcode::Opcode;
use marin::binary::value::Value;
use marin::com::emit::emit;
use marin::com::ir::LabelID;
use marin::com::low::{Expr, FunID, Function, Pat, Program, Stmt};

fn function(name: &str, id: usize, args: Vec<Pat>, expr: Expr) -> Function {
    Function { name: name.to_string(), id: FunID(id), args, expr, captured_count: 0 }
}

fn targets_are_boundaries(code: &[(usize, Opcode)], end: usize) {
    let starts: Vec<usize> = code.iter().map(|(pos, _)| *pos).collect();
    for (_, op) in code {
        let target = match op {
            Opcode::jump(t) | Opcode::jump_if(t) | Opcode::jump_if_not(t) | Opcode::jump_eq(t) | Opcode::jump_ne(t) => {
                Some(*t as usize)
            },
            _ => None,
        };
        if let Some(t) = target {
            assert!(starts.contains(&t) || t == end, "jump to {t} lands inside an instruction");
        }
    }
}

#[test]
fn emit_constant_function() {
    let program = Program { functions: vec![function("main", 0, vec![], Expr::Int { val: 7 })] };
    let bytes = emit(program).unwrap();
    assert_eq!(&bytes[0..8], b"exemarin");
    let listing = read_listing(&bytes).unwrap();
    assert_eq!(listing.constants.len(), 1);
    assert!(listing.constants[0].equals(&Value::Int(7)));
    assert_eq!(listing.function_table.len(), 1);
    assert_eq!(listing.function_table.get(&0).unwrap(), "main");
    assert_eq!(listing.code, vec![(0, Opcode::load_const(0)), (3, Opcode::ret)]);
}

#[test]
fn emit_shares_equal_constants() {
    let body = Expr::Bundle { items: vec![Expr::Int { val: 1 }, Expr::Int { val: 1 }, Expr::String { val: "s".to_string() }] };
    let program = Program { functions: vec![function("main", 0, vec![], body)] };
    let listing = read_listing(&emit(program).unwrap()).unwrap();
    assert_eq!(listing.constants.len(), 2);
    assert!(listing.constants[0].equals(&Value::Int(1)));
    assert!(listing.constants[1].equals(&Value::String("s".to_string())));
    let loads: Vec<Opcode> = listing.code.iter().map(|(_, op)| *op).filter(|op| matches!(op, Opcode::load_const(_))).collect();
    assert_eq!(loads, vec![Opcode::load_const(0), Opcode::load_const(0), Opcode::load_const(1)]);
}

#[test]
fn emit_two_functions_lists_both() {
    let program = Program {
        functions: vec![
            function("main", 0, vec![], Expr::Call { callee: Box::new(Expr::Fun { id: FunID(1), captured: vec![] }), args: vec![] }),
            function("helper", 1, vec![Pat::Local(0)], Expr::Local { local: 0 }),
        ],
    };
    let bytes = emit(program).unwrap();
    let listing = read_listing(&bytes).unwrap();
    assert_eq!(listing.function_table.len(), 2);
    let helper_pos = listing.function_table.iter().find(|(_, name)| name.as_str() == "helper").map(|(pos, _)| *pos).unwrap();
    assert_eq!(listing.function_table.get(&0).unwrap(), "main");
    let loaded: Vec<u32> = listing.code.iter().filter_map(|(_, op)| match op {
        Opcode::load_fun(p) => Some(*p),
        _ => None,
    }).collect();
    assert_eq!(loaded, vec![helper_pos]);
    assert!(listing.code.iter().any(|(pos, _)| *pos as u32 == helper_pos));
}

#[test]
fn emit_if_jumps_within_code() {
    let body = Expr::If {
        label: LabelID(0),
        guard: Box::new(Expr::Bool { val: true }),
        then_branch: Box::new(Expr::Int { val: 1 }),
        else_branch: Box::new(Expr::Int { val: 2 }),
    };
    let program = Program { functions: vec![function("main", 0, vec![], body)] };
    let bytes = emit(program).unwrap();
    let listing = read_listing(&bytes).unwrap();
    let end = listing.code.last().map(|(pos, _)| *pos + 1).unwrap();
    targets_are_boundaries(&listing.code, end);
    assert!(listing.code.iter().any(|(_, op)| matches!(op, Opcode::jump_if_not(_))));
    assert_eq!(listing.code.last().unwrap().1, Opcode::ret);
}

#[test]
fn emit_loop_with_statement_body() {
    let body = Expr::Loop {
        label: LabelID(0),
        body: Box::new(Stmt::Expr { expr: Box::new(Expr::Int { val: 3 }) }),
    };
    let program = Program { functions: vec![function("main", 0, vec![], body)] };
    let listing = read_listing(&emit(program).unwrap()).unwrap();
    let end = listing.code.last().map(|(pos, _)| *pos + 1).unwrap();
    targets_are_boundaries(&listing.code, end);
    assert!(listing.code.iter().any(|(_, op)| matches!(op, Opcode::jump(0))));
}

#[test]
fn emit_empty_program_is_header_only() {
    let bytes = emit(Program { functions: vec![] }).unwrap();
    let mut expected = b"exemarin".to_vec();
    expected.extend_from_slice(&[0, 0, 0, 0]);
    assert_eq!(bytes, expected);
}

#[test]
fn emit_one_empty_bundle_function_bytes() {
    let f = function("f", 0, vec![], Expr::Bundle { items: vec![] });
    let bytes = emit(Program { functions: vec![f] }).unwrap();
    let mut expected = b"exemarin".to_vec();
    expected.extend_from_slice(&[0, 0, 1, 0, 0, 0, 0, 0, 1, 0, 0, 0, 0, 0, 0, 0]);
    expected.extend_from_slice(b"f");
    expected.extend_from_slice(&[0x10, 0x00, 0xbf]);
    assert_eq!(bytes, expected);
}

#[test]
fn emit_subtraction_operands_then_operator() {
    let body = Expr::Sub(Box::new(Expr::Int { val: 5 }), Box::new(Expr::Int { val: 3 }));
    let bytes = emit(Program { functions: vec![function("main", 0, vec![], body)] }).unwrap();
    let listing = read_listing(&bytes).unwrap();
    let ops: Vec<Opcode> = listing.code.iter().map(|(_, op)| *op).collect();
    assert_eq!(ops, vec![Opcode::load_const(0), Opcode::load_const(1), Opcode::sub, Opcode::ret]);
}

#[test]
fn simplify_deconstruct_drops_literals_and_pairs_items() {
    let lhs = Pat::Bundle(vec![Pat::Int(1), Pat::Local(0), Pat::Discard]);
    let rhs = Expr::Bundle { items: vec![Expr::Int { val: 9 }, Expr::Local { local: 3 }] };
    let mut bindings = Vec::new();
    marin::com::low::simplify_deconstruct(lhs, rhs, &mut bindings);
    assert_eq!(bindings.len(), 1);
    assert!(matches!(&bindings[0], (Pat::Local(0), Expr::Local { local: 3 })));
    let mut more = Vec::new();
    marin::com::low::simplify_deconstruct(Pat::Local(1), Expr::Int { val: 2 }, &mut more);
    assert!(matches!(&more[0], (Pat::Local(1), Expr::Int { val: 2 })));
}

#[test]
fn emit_if_jumps_to_else_when_guard_is_false() {
    let body = Expr::If {
        label: LabelID(0),
        guard: Box::new(Expr::Bool { val: true }),
        then_branch: Box::new(Expr::Int { val: 1 }),
        else_branch: Box::new(Expr::Int { val: 2 }),
    };
    let program = Program { functions: vec![function("main", 0, vec![], body)] };
    let listing = read_listing(&emit(program).unwrap()).unwrap();
    assert_eq!(
        listing.code,
        vec![
            (0, Opcode::load_const(0)),
            (3, Opcode::jump_if_not(16)),
            (8, Opcode::load_const(1)),
            (11, Opcode::jump(19)),
            (16, Opcode::load_const(2)),
            (19, Opcode::ret),
        ]
    );
}

#[test]
fn emit_short_and_skips_right_operand_when_left_is_false() {
    let body = Expr::ShortAnd(Box::new(Expr::Bool { val: true }), Box::new(Expr::Bool { val: false }));
    let program = Program { functions: vec![function("main", 0, vec![], body)] };
    let listing = read_listing(&emit(program).unwrap()).unwrap();
    assert_eq!(
        listing.code,
        vec![
            (0, Opcode::load_const(0)),
            (3, Opcode::dup),
            (4, Opcode::jump_if_not(13)),
            (9, Opcode::pop),
            (10, Opcode::load_const(1)),
            (13, Opcode::ret),
        ]
    );
}

#[test]
fn emit_short_or_skips_right_operand_when_left_is_true() {
    let body = Expr::ShortOr(Box::new(Expr::Bool { val: false }), Box::new(Expr::Bool { val: true }));
    let program = Program { functions: vec![function("main", 0, vec![], body)] };
    let listing = read_listing(&emit(program).unwrap()).unwrap();
    assert_eq!(
        listing.code,
        vec![
            (0, Opcode::load_const(0)),
            (3, Opcode::dup),
            (4, Opcode::jump_if(13)),
            (9, Opcode::pop),
            (10, Opcode::load_const(1)),
            (13, Opcode::ret),
        ]
    );
}

#[test]
fn emit_while_jumps_back_to_its_guard() {
    let body = Expr::Bundle {
        items: vec![
            Expr::Int { val: 1 },
            Expr::While {
                label: LabelID(0),
                guard: Box::new(Expr::Bool { val: true }),
                do_branch: Box::new(Stmt::Expr { expr: Box::new(Expr::Int { val: 2 }) }),
                else_branch: Box::new(Expr::Int { val: 3 }),
            },
        ],
    };
    let program = Program { functions: vec![function("main", 0, vec![], body)] };
    let listing = read_listing(&emit(program).unwrap()).unwrap();
    assert_eq!(
        listing.code,
        vec![
            (0, Opcode::load_const(0)),
            (3, Opcode::load_const(1)),
            (6, Opcode::jump_if_not(20)),
            (11, Opcode::load_const(2)),
            (14, Opcode::pop),
            (15, Opcode::jump(3)),
            (20, Opcode::load_const(3)),
            (23, Opcode::bundle(2)),
            (25, Opcode::ret),
        ]
    );
}

#[test]
fn emit_loop_jumps_back_to_its_start() {
    let body = Expr::Bundle {
        items: vec![
            Expr::Int { val: 1 },
            Expr::Loop { label: LabelID(0), body: Box::new(Stmt::Expr { expr: Box::new(Expr::Int { val: 2 }) }) },
        ],
    };
    let program = Program { functions: vec![function("main", 0, vec![], body)] };
    let listing = read_listing(&emit(program).unwrap()).unwrap();
    assert_eq!(
        listing.code,
        vec![
            (0, Opcode::load_const(0)),
            (3, Opcode::load_const(1)),
            (6, Opcode::pop),
            (7, Opcode::jump(3)),
            (12, Opcode::bundle(2)),
            (14, Opcode::ret),
        ]
    );
}
