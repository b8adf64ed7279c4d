use marin::binary::code::{read_opcode, write_opcode};
use marin::binary::data::{read_string, read_value, write_string, write_value};
use marin::binary::error::Error;
use marin::binary::listing::read_listing;
use marin::binary::opcode::{self, Opcode};
use marin::binary::sections::{
    read_constant_pool, read_function_table, read_magic, write_constant_pool, write_function_table, write_magic,
};
use marin::binary::value::Value;
use std::collections::HashMap;

#[test]
fn little_endian_bytes() {
    let mut w = Vec::new();
    write_opcode(&mut w, &Opcode::spill(0x1234));
    assert_eq!(w, vec![opcode::SPILL, 0x34, 0x12]);
    let mut w = Vec::new();
    write_opcode(&mut w, &Opcode::load_fun(0x01020304));
    assert_eq!(w, vec![opcode::LOAD_FUN, 4, 3, 2, 1]);
    let mut w = Vec::new();
    write_opcode(&mut w, &Opcode::bundle_big(1));
    assert_eq!(w, vec![opcode::BUNDLE_BIG, 1, 0, 0, 0, 0, 0, 0, 0]);
    let mut w = Vec::new();
    write_value(&mut w, &Value::Int(-1));
    assert_eq!(&w[1..], &[0xff; 8]);
    let bytes = [9, opcode::SPILL, 0x34, 0x12, opcode::LOAD_FUN, 4, 3, 2, 1];
    assert_eq!(read_opcode(&bytes, 1).unwrap(), (Opcode::spill(0x1234), 4));
    assert_eq!(read_opcode(&bytes, 4).unwrap(), (Opcode::load_fun(0x01020304), 9));
    let long = [opcode::BUNDLE_BIG, 0xfe, 0xff, 0xff, 0xff, 0xff, 0xff, 0xff, 0xff];
    assert_eq!(read_opcode(&long, 0).unwrap(), (Opcode::bundle_big(0xffff_ffff_ffff_fffe), 9));
    let mut int_bytes = Vec::new();
    write_value(&mut int_bytes, &Value::Int(0));
    int_bytes.truncate(1);
    int_bytes.extend_from_slice(&[0xfe, 0xff, 0xff, 0xff, 0xff, 0xff, 0xff, 0xff]);
    let (v, next) = read_value(&int_bytes, 0).unwrap();
    assert!(v.equals(&Value::Int(-2)));
    assert_eq!(next, 9);
}

#[test]
fn opcode_bytes() {
    let mut w = Vec::new();
    write_opcode(&mut w, &Opcode::load_const(0x0102));
    assert_eq!(w, vec![opcode::LOAD_CONST, 0x02, 0x01]);
    let mut w = Vec::new();
    write_opcode(&mut w, &Opcode::ret);
    assert_eq!(w, vec![opcode::RET]);
    let mut w = Vec::new();
    write_opcode(&mut w, &Opcode::jump(5));
    assert_eq!(w, vec![opcode::JUMP, 5, 0, 0, 0]);
}

#[test]
fn opcode_roundtrip() {
    let ops = vec![
        Opcode::load_fun(7),
        Opcode::bundle(3),
        Opcode::bundle_big(1 << 40),
        Opcode::index_big_dup(9),
        Opcode::spill(300),
        Opcode::add,
        Opcode::load_local(4),
        Opcode::jump_if_not(1234),
        Opcode::call(2),
        Opcode::pop_offset(17),
        Opcode::panic,
    ];
    let mut w = Vec::new();
    for op in &ops {
        write_opcode(&mut w, op);
    }
    let mut pos = 0;
    for op in &ops {
        let (read, next) = read_opcode(&w, pos).unwrap();
        assert_eq!(read, *op);
        pos = next;
    }
    assert_eq!(pos, w.len());
}

#[test]
fn illegal_and_truncated_opcodes() {
    assert!(matches!(read_opcode(&[0xff], 0), Err(Error::IllegalOpcode(0xff))));
    assert!(matches!(read_opcode(&[opcode::JUMP, 1, 2], 0), Err(Error::IO)));
    assert!(matches!(read_opcode(&[], 0), Err(Error::IO)));
}

#[test]
fn dynamic_index_is_written_but_not_read() {
    let mut w = Vec::new();
    write_opcode(&mut w, &Opcode::index_dyn);
    assert_eq!(w, vec![opcode::INDEX_DYN]);
    assert!(matches!(read_opcode(&w, 0), Err(Error::IllegalOpcode(0x17))));
}

#[test]
fn string_roundtrip() {
    let mut w = Vec::new();
    write_string(&mut w, "héllo");
    assert_eq!(&w[0..8], &[6, 0, 0, 0, 0, 0, 0, 0]);
    let (s, next) = read_string(&w, 0).unwrap();
    assert_eq!(s, "héllo");
    assert_eq!(next, 14);
}

#[test]
fn invalid_utf8_string() {
    let bytes = [2, 0, 0, 0, 0, 0, 0, 0, 0xc3, 0x28];
    assert!(matches!(read_string(&bytes, 0), Err(Error::Utf8)));
}

#[test]
fn value_roundtrip() {
    let v = Value::Bundle(vec![Value::Int(-5), Value::Float(0x4000_0000_0000_0000), Value::String("ab".to_string()), Value::Bool(true)]);
    let mut w = Vec::new();
    write_value(&mut w, &v);
    let (back, next) = read_value(&w, 0).unwrap();
    assert_eq!(next, w.len());
    assert!(back.equals(&v));
    assert!(!back.equals(&Value::Int(-5)));
}

#[test]
fn illegal_value_tag() {
    assert!(matches!(read_value(&[0x77], 0), Err(Error::IllegalValue)));
}

#[test]
fn magic_bytes() {
    let mut w = Vec::new();
    write_magic(&mut w);
    assert_eq!(w, b"exemarin".to_vec());
    assert_eq!(read_magic(&w, 0).unwrap(), 8);
    assert!(matches!(read_magic(b"exemarix", 0), Err(Error::MagicMismatch)));
    assert!(matches!(read_magic(b"exe", 0), Err(Error::IO)));
}

#[test]
fn constant_pool_roundtrip() {
    let constants = vec![Value::Int(3), Value::String("x".to_string())];
    let mut w = Vec::new();
    write_constant_pool(&mut w, &constants);
    let (back, next) = read_constant_pool(&w, 0).unwrap();
    assert_eq!(next, w.len());
    assert_eq!(back.len(), 2);
    assert!(back[0].equals(&constants[0]));
    assert!(back[1].equals(&constants[1]));
}

#[test]
fn function_table_roundtrip() {
    let mut table = HashMap::new();
    table.insert(0u32, "main".to_string());
    table.insert(12u32, "helper".to_string());
    let mut w = Vec::new();
    write_function_table(&mut w, &table);
    let (back, next) = read_function_table(&w, 0).unwrap();
    assert_eq!(next, w.len());
    assert_eq!(back.len(), 2);
    assert_eq!(back.get(&0).unwrap(), "main");
    assert_eq!(back.get(&12).unwrap(), "helper");
}

#[test]
fn listing_of_a_file() {
    let mut w = Vec::new();
    write_magic(&mut w);
    write_constant_pool(&mut w, &[Value::Int(42)]);
    let mut table = HashMap::new();
    table.insert(0u32, "main".to_string());
    write_function_table(&mut w, &table);
    write_opcode(&mut w, &Opcode::load_const(0));
    write_opcode(&mut w, &Opcode::ret);
    let listing = read_listing(&w).unwrap();
    assert_eq!(listing.constants.len(), 1);
    assert!(listing.constants[0].equals(&Value::Int(42)));
    assert_eq!(listing.function_table.get(&0).unwrap(), "main");
    assert_eq!(listing.code, vec![(0, Opcode::load_const(0)), (3, Opcode::ret)]);
}

#[test]
fn listing_stops_at_a_bad_opcode() {
    let mut w = Vec::new();
    write_magic(&mut w);
    write_constant_pool(&mut w, &[]);
    write_function_table(&mut w, &HashMap::new());
    w.push(opcode::RET);
    w.push(0x01);
    assert!(matches!(read_listing(&w), Err(Error::IllegalOpcode(0x01))));
    assert!(matches!(read_listing(b"nope"), Err(Error::IO)));
}
