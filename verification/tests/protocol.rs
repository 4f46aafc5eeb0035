use leybold_opc_rs::opc_values::{
    encode_bytes, encode_converted, encode_whole, DecodeError, EncodeError, EncodeOpcValue,
    ParseValueError, Value,
};
use leybold_opc_rs::packets::cc_payloads::{
    InstrumentVersionQuery, InstrumentVersionResponse, SdbDownload, SdbDownloadContinue,
    SdbDownloadRequest, SdbVersionQuery, SdbVersionResponse,
};
use leybold_opc_rs::packets::{
    PacketCC, PacketCCHeader, ParamQuerySet, ParamQuerySetBuilder, ParamRead, ParamReadDynResponse,
    ParamWrite, ParamsReadQuery, PayloadParamWrite, PayloadUnknown, QueryPacket, ResponseError,
    WireError,
};
use leybold_opc_rs::sdb::{AccessMode, Sdb, SdbError, TypeKind};

// ---- a small database, written out byte by byte -------------------------

fn le16(x: u16) -> Vec<u8> {
    x.to_le_bytes().to_vec()
}

fn le32(x: u32) -> Vec<u8> {
    x.to_le_bytes().to_vec()
}

/// A string as the database stores it: padded with NUL bytes to a multiple
/// of four, behind its padded length.
fn sdb_str(text: &[u8]) -> Vec<u8> {
    let mut padded = text.to_vec();
    while padded.len() % 4 != 0 {
        padded.push(0);
    }
    let mut out = le16(padded.len() as u16);
    out.extend_from_slice(&padded);
    out
}

fn record(tag: u32, rest: &[u8]) -> Vec<u8> {
    let mut out = le32(tag);
    out.extend(le32(rest.len() as u32 + 8));
    out.extend_from_slice(rest);
    out
}

fn type_descr(kind: u32, size: u32, description: &[u8], payload: &[u8]) -> Vec<u8> {
    let mut rest = le32(kind);
    rest.extend(le32(size));
    rest.extend(sdb_str(description));
    rest.extend_from_slice(payload);
    record(4, &rest)
}

fn array_payload(elem: u32, dims: &[(u32, u32)]) -> Vec<u8> {
    let mut out = le32(elem);
    out.extend(le32(dims.len() as u32));
    for (lo, hi) in dims {
        out.extend(le32(*lo));
        out.extend(le32(*hi));
    }
    out
}

fn member(type_idx: u32, id_offset: u32, name: &[u8]) -> Vec<u8> {
    let mut rest = le32(type_idx);
    rest.extend(le32(0));
    rest.extend(le32(0));
    rest.extend(le32(id_offset));
    rest.extend(sdb_str(name));
    record(5, &rest)
}

fn struct_payload(members: &[Vec<u8>]) -> Vec<u8> {
    let mut out = le32(members.len() as u32);
    for m in members {
        out.extend_from_slice(m);
    }
    out
}

fn param(type_idx: u32, rw: u16, id: u32, name: &[u8]) -> Vec<u8> {
    let mut rest = le32(type_idx);
    rest.extend(le16(0x0011));
    rest.extend(le16(0x0022));
    rest.extend(le16(rw));
    rest.extend(le16(3));
    rest.extend(le32(id));
    rest.extend(sdb_str(name));
    record(5, &rest)
}

fn blob(sdb_id: u32, types: &[Vec<u8>], params: &[Vec<u8>], tail: &[u8]) -> Vec<u8> {
    let mut out = le32(1);
    out.extend(le32(40));
    out.extend(le32(1));
    out.extend(le32(sdb_id));
    out.extend(le32(0xC0FFEE));
    out.extend(le32(0));
    out.extend(le32(7));
    out.extend(le32(8));
    out.extend(le32(9));
    out.extend(le32(types.len() as u32));
    for t in types {
        out.extend_from_slice(t);
    }
    out.extend(le32(3));
    out.extend(le32(0x55));
    out.extend(le32(0));
    out.extend(le32(params.len() as u32));
    for p in params {
        out.extend_from_slice(p);
    }
    out.extend(record(6, tail));
    out
}

const T_BOOL: u32 = 0;
const T_INT: u32 = 1;
const T_BYTE: u32 = 2;
const T_WORD: u32 = 3;
const T_DWORD: u32 = 4;
const T_REAL: u32 = 5;
const T_TIME: u32 = 6;
const T_STRING: u32 = 7;
const T_WORDS: u32 = 8;
const T_PAIR: u32 = 9;
const T_UINT: u32 = 10;
const T_UDINT: u32 = 11;
const T_POINTER: u32 = 12;
const T_MATRIX: u32 = 13;
const T_NO_DIMS: u32 = 14;
const T_NESTED: u32 = 15;

fn fixture_types() -> Vec<Vec<u8>> {
    vec![
        type_descr(0, 1, b"BOOL", &[]),
        type_descr(1, 2, b"INT", &[]),
        type_descr(2, 1, b"BYTE", &[]),
        type_descr(3, 2, b"WORD", &[]),
        type_descr(5, 4, b"DWORD", &[]),
        type_descr(6, 4, b"REAL", &[]),
        type_descr(7, 4, b"TIME", &[]),
        type_descr(8, 16, b"STRING(15)", &[]),
        type_descr(9, 4, b"ARRAY [0..1] OF WORD", &array_payload(T_WORD, &[(0, 1)])),
        type_descr(
            11,
            4,
            b"PAIR",
            &struct_payload(&[member(T_BYTE, 1, b"b"), member(T_WORD, 2, b"w")]),
        ),
        type_descr(0x10, 2, b"UINT", &[]),
        type_descr(0x11, 4, b"UDINT", &[]),
        type_descr(0x17, 4, b"POINTER", &le32(T_BOOL)),
        type_descr(9, 6, b"ARRAY [0..1, 1..3] OF BYTE", &array_payload(T_BYTE, &[(0, 1), (1, 3)])),
        type_descr(9, 0, b"ARRAY OF NOTHING", &array_payload(T_BYTE, &[])),
        type_descr(
            11,
            8,
            b"NESTED",
            &struct_payload(&[member(T_PAIR, 1, b"first"), member(T_WORDS, 5, b"rest")]),
        ),
    ]
}

fn fixture_params() -> Vec<Vec<u8>> {
    vec![
        param(T_STRING, 0x62, 0xDEAD, b".CockpitUser"),
        param(T_REAL, 0x72, 0x4787C, b".Gauge[1].Parameter[1].Value"),
        param(T_BOOL, 0x62, 0x100, b".Flag"),
        param(T_INT, 0x62, 0x101, b".Offset"),
        param(T_BYTE, 0x62, 0x102, b".Level"),
        param(T_WORD, 0x62, 0x103, b".Count"),
        param(T_DWORD, 0x62, 0x104, b".Total"),
        param(T_TIME, 0x72, 0x105, b".Uptime"),
        param(T_WORDS, 0x72, 0x106, b".Words"),
        param(T_PAIR, 0x72, 0x107, b".Pair"),
        param(T_UINT, 0x62, 0x108, b".Small"),
        param(T_UDINT, 0x62, 0x109, b".Large"),
        param(T_POINTER, 0xFF, 0x10A, b".Ref"),
        param(T_MATRIX, 0x72, 0x10B, b".Matrix"),
        param(T_NO_DIMS, 0x72, 0x10C, b".Empty"),
        param(T_NESTED, 0x72, 0x10D, b".Nested"),
        param(T_BYTE, 0x72, 0x10E, b".Level"),
    ]
}

fn fixture_blob() -> Vec<u8> {
    blob(0x0002_5334, &fixture_types(), &fixture_params(), &[0xAA, 0xBB, 0xCC])
}

fn fixture() -> Sdb {
    Sdb::from_bytes(&fixture_blob()).expect("the fixture is a database")
}

fn load(types: &[Vec<u8>], params: &[Vec<u8>]) -> Result<Sdb, SdbError> {
    Sdb::from_bytes(&blob(1, types, params, &[]))
}

fn load_err(types: &[Vec<u8>], params: &[Vec<u8>]) -> SdbError {
    match load(types, params) {
        Ok(_) => panic!("the database should have been refused"),
        Err(e) => e,
    }
}

// ---- the catalog --------------------------------------------------------

#[test]
fn cockpit_user_is_a_string_of_sixteen_bytes() {
    let sdb = fixture();
    let p = sdb.param_by_name(".CockpitUser").unwrap();
    assert_eq!(p.id(), 0xDEAD);
    assert_eq!(p.name(), ".CockpitUser");
    assert_eq!(p.value_kind(), TypeKind::String);
    assert_eq!(p.type_info().kind(), TypeKind::String);
    assert_eq!(p.type_info().response_len(), 16);
    assert_eq!(p.access_mode(), AccessMode::ReadWrite);
}

#[test]
fn catalog_keeps_the_order_and_the_header() {
    let sdb = fixture();
    assert_eq!(sdb.sdb_id(), 0x0002_5334);
    assert_eq!(sdb.param_count(), 17);
    let all = sdb.parameters();
    assert_eq!(all.len(), 17);
    assert_eq!(all[0].name(), ".CockpitUser");
    assert_eq!(all[1].id(), 0x4787C);
    assert_eq!(all[12].access_mode(), AccessMode::Write);
    assert_eq!(all[7].access_mode(), AccessMode::Read);
    assert_eq!(all[16].position(), 16);
    assert!(sdb.param_at(17).is_none());
    assert_eq!(sdb.param_at(3).unwrap().name(), ".Offset");
}

#[test]
fn every_parameter_is_found_by_its_own_name() {
    let sdb = fixture();
    let all = sdb.parameters();
    for (i, p) in all.iter().enumerate() {
        let found = sdb.param_by_name(p.name()).unwrap();
        if i == 16 {
            // ".Level" is in the catalog twice: the first one is found.
            assert_eq!(found.position(), 4);
            assert_eq!(found.id(), 0x102);
        } else {
            assert_eq!(found.position(), i);
            assert_eq!(found.id(), p.id());
            assert_eq!(found.type_info().response_len(), p.type_info().response_len());
        }
    }
}

#[test]
fn unknown_name_is_reported_with_the_name() {
    let sdb = fixture();
    let e = sdb.param_by_name(".Nope").unwrap_err();
    assert_eq!(e.0, ".Nope");
    assert!(sdb.param_by_name(".cockpituser").is_err());
    assert!(sdb.param_by_name("").is_err());
}

#[test]
fn names_are_read_in_code_page_1252() {
    let types = vec![type_descr(0, 1, b"BOOL", &[])];
    let params = vec![param(0, 0x72, 7, &[b'.', 0xC4, b'r', 0x80])];
    let sdb = load(&types, &params).unwrap();
    let all = sdb.parameters();
    assert_eq!(all[0].name(), ".\u{c4}r\u{20ac}");
    assert_eq!(sdb.param_by_name(".\u{c4}r\u{20ac}").unwrap().id(), 7);
}

#[test]
fn at_most_three_padding_bytes_are_stripped() {
    let types = vec![type_descr(0, 1, b"BOOL", &[])];
    let mut name = le16(8);
    name.extend_from_slice(&[b'a', b'b', b'c', 0, 0, 0, 0, 0]);
    let mut rest = le32(0);
    rest.extend(le16(0));
    rest.extend(le16(0));
    rest.extend(le16(0x72));
    rest.extend(le16(3));
    rest.extend(le32(9));
    rest.extend(name);
    let sdb = load(&types, &[record(5, &rest)]).unwrap();
    assert_eq!(sdb.parameters()[0].name(), "abc\0\0");
}

#[test]
fn empty_and_all_nul_strings_are_empty_names() {
    let types = vec![type_descr(0, 1, b"", &[])];
    let mut rest = le32(0);
    rest.extend(le16(0));
    rest.extend(le16(0));
    rest.extend(le16(0x72));
    rest.extend(le16(3));
    rest.extend(le32(2));
    rest.extend(le16(2));
    rest.extend_from_slice(&[0, 0]);
    let params = vec![param(0, 0x72, 1, b""), record(5, &rest)];
    let sdb = load(&types, &params).unwrap();
    assert_eq!(sdb.parameters()[0].name(), "");
    assert_eq!(sdb.parameters()[1].name(), "");
    assert_eq!(sdb.parameters()[1].id(), 2);
    assert_eq!(sdb.param_by_name("").unwrap().id(), 1);
}

#[test]
fn array_info_gives_element_type_and_lengths() {
    let sdb = fixture();
    let words = sdb.param_by_name(".Words").unwrap().type_info();
    let (elem, dims) = words.array_info().unwrap();
    assert_eq!(elem.kind(), TypeKind::Word);
    assert_eq!(dims, [2, 0]);
    let matrix = sdb.param_by_name(".Matrix").unwrap().type_info();
    let (elem, dims) = matrix.array_info().unwrap();
    assert_eq!(elem.kind(), TypeKind::Byte);
    assert_eq!(dims, [2, 3]);
    let empty = sdb.param_by_name(".Empty").unwrap().type_info();
    assert_eq!(empty.array_info().unwrap().1, [0, 0]);
    assert!(words.struct_info().is_none());
    assert!(sdb.param_by_name(".Flag").unwrap().type_info().array_info().is_none());
}

#[test]
fn struct_info_gives_members_in_order() {
    let sdb = fixture();
    let pair = sdb.param_by_name(".Pair").unwrap().type_info();
    let members = pair.struct_info().unwrap();
    assert_eq!(members.len(), 2);
    assert_eq!(members[0].name, "b");
    assert_eq!(members[0].type_info.kind(), TypeKind::Byte);
    assert_eq!(members[1].name, "w");
    assert_eq!(members[1].type_info.kind(), TypeKind::Word);
    assert_eq!(members[1].type_info.position(), T_WORD as usize);
    assert!(pair.array_info().is_none());
    assert_eq!(pair.table_len(), 16);
}

#[test]
fn type_kind_codes() {
    let codes: [(u32, TypeKind); 13] = [
        (0, TypeKind::Bool),
        (1, TypeKind::Int),
        (2, TypeKind::Byte),
        (3, TypeKind::Word),
        (5, TypeKind::Dword),
        (6, TypeKind::Real),
        (7, TypeKind::Time),
        (8, TypeKind::String),
        (9, TypeKind::Array),
        (11, TypeKind::Data),
        (0x10, TypeKind::Uint),
        (0x11, TypeKind::Udint),
        (0x17, TypeKind::Pointer),
    ];
    for (code, kind) in codes {
        assert_eq!(TypeKind::from_code(code), Some(kind));
        assert_eq!(kind.code(), code);
    }
    assert_eq!(TypeKind::from_code(4), None);
    assert_eq!(TypeKind::from_code(10), None);
    assert_eq!(TypeKind::from_code(0x18), None);
    assert_eq!(TypeKind::Bool.scalar_size(), Some(1));
    assert_eq!(TypeKind::Int.scalar_size(), Some(2));
    assert_eq!(TypeKind::Real.scalar_size(), Some(4));
    assert_eq!(TypeKind::String.scalar_size(), None);
    assert_eq!(AccessMode::from_code(0x72), Some(AccessMode::Read));
    assert_eq!(AccessMode::from_code(0x62), Some(AccessMode::ReadWrite));
    assert_eq!(AccessMode::from_code(0xFF), Some(AccessMode::Write));
    assert_eq!(AccessMode::from_code(0), None);
}

#[test]
fn what_follows_the_trailer_is_ignored() {
    let mut b = fixture_blob();
    b.extend_from_slice(&[1, 2, 3, 4, 5]);
    assert_eq!(Sdb::from_bytes(&b).unwrap().param_count(), 17);
}

#[test]
fn every_truncation_of_the_fixture_is_refused() {
    let b = fixture_blob();
    for n in 0..b.len() {
        match Sdb::from_bytes(&b[..n]) {
            Ok(_) => panic!("a database of {} bytes was accepted", n),
            Err(e) => assert_eq!(e, SdbError::Truncated, "at {} bytes", n),
        }
    }
}

#[test]
fn bad_tags_are_refused() {
    let good = fixture_blob();
    // the header's tag, its second tag, the first type's tag
    for at in [0usize, 8, 40] {
        let mut b = good.clone();
        b[at] ^= 0x40;
        assert_eq!(Sdb::from_bytes(&b).unwrap_err(), SdbError::BadTag);
    }
    // a wrong tag wins over a missing rest
    assert_eq!(Sdb::from_bytes(&[2, 0, 0, 0]).unwrap_err(), SdbError::BadTag);
    assert_eq!(Sdb::from_bytes(&[1, 0, 0]).unwrap_err(), SdbError::Truncated);
    // the separator's second word must be zero
    let types = vec![type_descr(0, 1, b"BOOL", &[])];
    let mut b = blob(1, &types, &[], &[]);
    let sep = 40 + types[0].len();
    b[sep + 8] = 1;
    assert_eq!(Sdb::from_bytes(&b).unwrap_err(), SdbError::BadTag);
    // the literal 3 in front of a parameter's id
    let params = vec![param(0, 0x72, 1, b"x")];
    let mut b = blob(1, &types, &params, &[]);
    b[sep + 16 + 18] = 4;
    assert_eq!(Sdb::from_bytes(&b).unwrap_err(), SdbError::BadTag);
}

#[test]
fn unknown_kind_and_access_mode_are_reported_with_their_code() {
    assert_eq!(load_err(&[type_descr(4, 2, b"?", &[])], &[]), SdbError::UnknownKind(4));
    assert_eq!(
        load_err(&[type_descr(0xABCD, 2, b"?", &[])], &[]),
        SdbError::UnknownKind(0xABCD)
    );
    let types = vec![type_descr(0, 1, b"BOOL", &[])];
    assert_eq!(
        load_err(&types, &[param(0, 0x73, 1, b"x")]),
        SdbError::UnknownAccessMode(0x73)
    );
}

#[test]
fn type_indexes_must_be_in_the_table() {
    let types = vec![type_descr(0, 1, b"BOOL", &[])];
    assert_eq!(load_err(&types, &[param(1, 0x72, 1, b"x")]), SdbError::BadTypeIndex);
    assert_eq!(
        load_err(&[type_descr(9, 4, b"A", &array_payload(1, &[(0, 1)]))], &[]),
        SdbError::BadTypeIndex
    );
    assert_eq!(
        load_err(&[type_descr(11, 4, b"S", &struct_payload(&[member(5, 0, b"m")]))], &[]),
        SdbError::BadTypeIndex
    );
    assert_eq!(load_err(&[type_descr(0x17, 4, b"P", &le32(1))], &[]), SdbError::BadTypeIndex);
    // a type may refer to a later one, and to itself
    let forward = vec![
        type_descr(9, 4, b"A", &array_payload(1, &[(0, 1)])),
        type_descr(3, 2, b"WORD", &[]),
        type_descr(0x17, 4, b"P", &le32(2)),
    ];
    assert!(load(&forward, &[]).is_ok());
}

#[test]
fn scalar_sizes_must_be_those_of_the_kind() {
    assert_eq!(load_err(&[type_descr(0, 2, b"BOOL", &[])], &[]), SdbError::BadTypeSize);
    assert_eq!(load_err(&[type_descr(3, 4, b"WORD", &[])], &[]), SdbError::BadTypeSize);
    assert_eq!(load_err(&[type_descr(6, 8, b"REAL", &[])], &[]), SdbError::BadTypeSize);
    assert_eq!(load_err(&[type_descr(0x17, 2, b"P", &le32(0))], &[]), SdbError::BadTypeSize);
    assert!(load(&[type_descr(8, 0, b"STRING", &[])], &[]).is_ok());
    assert!(load(&[type_descr(8, 81, b"STRING", &[])], &[]).is_ok());
}

#[test]
fn arrays_have_at_most_two_ordered_dimensions() {
    let three = array_payload(0, &[(0, 1), (0, 1), (0, 1)]);
    assert_eq!(load_err(&[type_descr(9, 8, b"A", &three)], &[]), SdbError::BadArray);
    let backwards = array_payload(0, &[(2, 1)]);
    assert_eq!(load_err(&[type_descr(9, 8, b"A", &backwards)], &[]), SdbError::BadArray);
    let too_wide = array_payload(0, &[(0, u32::MAX)]);
    assert_eq!(load_err(&[type_descr(9, 8, b"A", &too_wide)], &[]), SdbError::BadArray);
    let single = array_payload(0, &[(5, 5)]);
    let sdb = load(&[type_descr(9, 1, b"A", &single)], &[param(0, 0x72, 1, b"a")]).unwrap();
    assert_eq!(sdb.parameters()[0].type_info().array_info().unwrap().1, [1, 0]);
}

#[test]
fn strings_longer_than_81_bytes_are_refused() {
    let long = [b'x'; 84];
    assert_eq!(load_err(&[type_descr(0, 1, &long, &[])], &[]), SdbError::BadString);
    let longest = [b'x'; 80];
    assert!(load(&[type_descr(0, 1, &longest, &[])], &[]).is_ok());
    let mut odd = le16(81);
    odd.extend_from_slice(&[b'y'; 81]);
    let mut rest = le32(0);
    rest.extend(le32(1));
    rest.extend(odd);
    assert!(load(&[record(4, &rest)], &[]).is_ok());
    let mut over = le16(82);
    over.extend_from_slice(&[b'y'; 82]);
    let mut rest = le32(0);
    rest.extend(le32(1));
    rest.extend(over);
    assert_eq!(load_err(&[record(4, &rest)], &[]), SdbError::BadString);
}

#[test]
fn trailer_must_state_at_least_its_own_header() {
    let types = vec![type_descr(0, 1, b"BOOL", &[])];
    let mut b = blob(1, &types, &[], &[]);
    let at = b.len() - 4;
    b[at] = 7;
    assert_eq!(Sdb::from_bytes(&b).unwrap_err(), SdbError::BadLength);
    b[at] = 9;
    assert_eq!(Sdb::from_bytes(&b).unwrap_err(), SdbError::Truncated);
    b[at] = 8;
    assert!(Sdb::from_bytes(&b).is_ok());
}

#[test]
fn header_and_trailer_are_kept() {
    let sdb = fixture();
    assert_eq!(sdb.checksum(), 0xC0FFEE);
    assert_eq!(sdb.total_size(), 0);
    assert_eq!(sdb.header_data(), (7, 8, 9));
    assert_eq!(sdb.tail(), &[0xAA, 0xBB, 0xCC]);
    assert_eq!(sdb.type_count(), 16);
    assert!(sdb.type_at(16).is_none());
    let t = sdb.type_at(7).unwrap();
    assert_eq!(t.description(), "STRING(15)");
    assert_eq!(t.kind(), TypeKind::String);
    assert_eq!(sdb.type_at(8).unwrap().description(), "ARRAY [0..1] OF WORD");
    assert_eq!(sdb.parameters()[0].flags(), (0x0011, 0x0022));
}

#[test]
fn type_description_accessors() {
    let sdb = fixture();
    let p = sdb.get_ref().param_by_name(".Total").unwrap();
    assert_eq!(p.type_info().kind(), TypeKind::Dword);
    assert_eq!(p.type_info().response_len(), 4);
    assert_eq!(p.type_info().position(), T_DWORD as usize);
}

// ---- values -------------------------------------------------------------

fn type_of<'a>(sdb: &'a Sdb, name: &str) -> leybold_opc_rs::sdb::TypeInfo<'a> {
    sdb.param_by_name(name).unwrap().type_info()
}

fn int_of(v: &Value) -> i64 {
    match v {
        Value::Int(x) => *x,
        other => panic!("not a whole number: {:?}", other),
    }
}

#[test]
fn scalars_are_read_big_endian() {
    let sdb = fixture();
    assert!(matches!(Value::parse(&[0], &type_of(&sdb, ".Flag")), Ok(Value::Bool(false))));
    assert!(matches!(Value::parse(&[1], &type_of(&sdb, ".Flag")), Ok(Value::Bool(true))));
    assert!(matches!(Value::parse(&[0x80], &type_of(&sdb, ".Flag")), Ok(Value::Bool(true))));
    assert_eq!(int_of(&Value::parse(&[0xFE], &type_of(&sdb, ".Level")).unwrap()), 254);
    assert_eq!(int_of(&Value::parse(&[0xFF, 0xFE], &type_of(&sdb, ".Offset")).unwrap()), -2);
    assert_eq!(int_of(&Value::parse(&[0x80, 0x00], &type_of(&sdb, ".Offset")).unwrap()), -32768);
    assert_eq!(int_of(&Value::parse(&[0x7F, 0xFF], &type_of(&sdb, ".Offset")).unwrap()), 32767);
    assert_eq!(int_of(&Value::parse(&[0xFF, 0xFE], &type_of(&sdb, ".Count")).unwrap()), 0xFFFE);
    assert_eq!(int_of(&Value::parse(&[0x12, 0x34], &type_of(&sdb, ".Small")).unwrap()), 0x1234);
    assert_eq!(
        int_of(&Value::parse(&[0xFF, 0, 0, 1], &type_of(&sdb, ".Total")).unwrap()),
        0xFF00_0001
    );
    assert_eq!(
        int_of(&Value::parse(&[0, 0, 1, 0], &type_of(&sdb, ".Large")).unwrap()),
        256
    );
    assert_eq!(int_of(&Value::parse(&[0, 0, 3, 0xE8], &type_of(&sdb, ".Uptime")).unwrap()), 1000);
    assert_eq!(
        int_of(&Value::parse(&[1, 2, 3, 4], &type_of(&sdb, ".Ref")).unwrap()),
        0x0102_0304
    );
}

#[test]
fn real_is_read_as_its_bit_pattern() {
    let sdb = fixture();
    let v = Value::parse(&[0x40, 0x49, 0x0F, 0xDB], &type_of(&sdb, ".Gauge[1].Parameter[1].Value"))
        .unwrap();
    match v {
        Value::Float(bits) => {
            assert_eq!(bits, 0x4049_0FDB);
            assert_eq!(f32::from_bits(bits), 3.1415927f32);
        }
        other => panic!("not a float: {:?}", other),
    }
}

#[test]
fn string_ends_at_the_first_nul() {
    let sdb = fixture();
    let ty = type_of(&sdb, ".CockpitUser");
    let mut bytes = b"User1234".to_vec();
    bytes.resize(16, 0);
    assert!(matches!(Value::parse(&bytes, &ty), Ok(Value::String(s)) if s == "User1234"));
    let mut bytes = b"ab\0cd".to_vec();
    bytes.resize(16, b'x');
    assert!(matches!(Value::parse(&bytes, &ty), Ok(Value::String(s)) if s == "ab"));
    let bytes = [b'z'; 16];
    assert!(matches!(Value::parse(&bytes, &ty), Ok(Value::String(s)) if s == "zzzzzzzzzzzzzzzz"));
    let bytes = [0u8; 16];
    assert!(matches!(Value::parse(&bytes, &ty), Ok(Value::String(s)) if s.is_empty()));
    // unused bytes behind the value are legal
    let bytes = [b'q'; 20];
    assert!(matches!(Value::parse(&bytes, &ty), Ok(Value::String(s)) if s.len() == 16));
}

#[test]
fn string_is_decoded_from_code_page_1252() {
    let sdb = fixture();
    let ty = type_of(&sdb, ".CockpitUser");
    let mut bytes = vec![0xE9, 0x80, b'a', 0xFC];
    bytes.resize(16, 0);
    assert!(
        matches!(Value::parse(&bytes, &ty), Ok(Value::String(s)) if s == "\u{e9}\u{20ac}a\u{fc}")
    );
}

#[test]
fn two_words_in_a_row_need_no_padding() {
    let sdb = fixture();
    let v = Value::parse(&[0x00, 0xFF, 0x12, 0x34], &type_of(&sdb, ".Words")).unwrap();
    match v {
        Value::Array(items) => {
            assert_eq!(items.len(), 2);
            assert_eq!(int_of(&items[0]), 0x00FF);
            assert_eq!(int_of(&items[1]), 0x1234);
        }
        other => panic!("not an array: {:?}", other),
    }
}

#[test]
fn a_word_behind_a_byte_starts_at_the_next_even_offset() {
    let sdb = fixture();
    let v = Value::parse(&[0xAA, 0x00, 0xFF, 0x12, 0x34, 0x00], &type_of(&sdb, ".Pair")).unwrap();
    match v {
        Value::Struct(fields) => {
            assert_eq!(fields.len(), 2);
            assert_eq!(fields[0].0, "b");
            assert_eq!(int_of(&fields[0].1), 0xAA);
            assert_eq!(fields[1].0, "w");
            assert_eq!(int_of(&fields[1].1), 0xFF12);
        }
        other => panic!("not a structure: {:?}", other),
    }
    // the padding byte is needed: without room for it the word is cut off
    assert!(matches!(
        Value::parse(&[0xAA, 0x00, 0xFF], &type_of(&sdb, ".Pair")),
        Err(DecodeError::Truncated)
    ));
}

#[test]
fn matrix_is_read_outer_dimension_first() {
    let sdb = fixture();
    let v = Value::parse(&[1, 2, 3, 4, 5, 6], &type_of(&sdb, ".Matrix")).unwrap();
    match v {
        Value::Matrix(rows) => {
            assert_eq!(rows.len(), 2);
            let flat: Vec<Vec<i64>> =
                rows.iter().map(|r| r.iter().map(int_of).collect()).collect();
            assert_eq!(flat, vec![vec![1, 2, 3], vec![4, 5, 6]]);
        }
        other => panic!("not a matrix: {:?}", other),
    }
    assert!(matches!(
        Value::parse(&[], &type_of(&sdb, ".Empty")),
        Ok(Value::Array(items)) if items.is_empty()
    ));
}

#[test]
fn nested_structures_keep_one_cursor() {
    let sdb = fixture();
    // first: byte 7, pad, word 0x0102; rest: words 0x0304 and 0x0506
    let v = Value::parse(&[7, 0, 1, 2, 3, 4, 5, 6], &type_of(&sdb, ".Nested")).unwrap();
    match v {
        Value::Struct(fields) => {
            assert_eq!(fields[0].0, "first");
            assert_eq!(fields[1].0, "rest");
            match (&fields[0].1, &fields[1].1) {
                (Value::Struct(pair), Value::Array(words)) => {
                    assert_eq!(int_of(&pair[0].1), 7);
                    assert_eq!(int_of(&pair[1].1), 0x0102);
                    assert_eq!(int_of(&words[0]), 0x0304);
                    assert_eq!(int_of(&words[1]), 0x0506);
                }
                other => panic!("unexpected members: {:?}", other),
            }
        }
        other => panic!("not a structure: {:?}", other),
    }
}

#[test]
fn short_data_is_truncated() {
    let sdb = fixture();
    assert!(matches!(Value::parse(&[], &type_of(&sdb, ".Flag")), Err(DecodeError::Truncated)));
    assert!(matches!(Value::parse(&[1], &type_of(&sdb, ".Count")), Err(DecodeError::Truncated)));
    assert!(matches!(
        Value::parse(&[1, 2, 3], &type_of(&sdb, ".Total")),
        Err(DecodeError::Truncated)
    ));
    assert!(matches!(
        Value::parse(&[0; 15], &type_of(&sdb, ".CockpitUser")),
        Err(DecodeError::Truncated)
    ));
    assert!(matches!(
        Value::parse(&[1, 2, 3], &type_of(&sdb, ".Words")),
        Err(DecodeError::Truncated)
    ));
    assert!(matches!(
        Value::parse(&[1, 2, 3, 4, 5], &type_of(&sdb, ".Matrix")),
        Err(DecodeError::Truncated)
    ));
}

#[test]
fn a_type_that_contains_itself_has_no_values() {
    let types = vec![
        type_descr(11, 4, b"SELF", &struct_payload(&[member(0, 0, b"me")])),
        type_descr(9, 4, b"LOOP", &array_payload(2, &[(0, 0)])),
        type_descr(11, 4, b"BACK", &struct_payload(&[member(1, 0, b"again")])),
    ];
    let params = vec![param(0, 0x72, 1, b".self"), param(1, 0x72, 2, b".loop")];
    let sdb = load(&types, &params).unwrap();
    assert!(matches!(
        Value::parse(&[0; 64], &type_of(&sdb, ".self")),
        Err(DecodeError::RecursiveType)
    ));
    assert!(matches!(
        Value::parse(&[0; 64], &type_of(&sdb, ".loop")),
        Err(DecodeError::RecursiveType)
    ));
}

#[test]
fn deepest_possible_nesting_is_still_read() {
    // three types, each inside the next: the depth equals the table's size
    let types = vec![
        type_descr(11, 1, b"OUTER", &struct_payload(&[member(1, 0, b"mid")])),
        type_descr(9, 1, b"MID", &array_payload(2, &[(0, 0)])),
        type_descr(2, 1, b"BYTE", &[]),
    ];
    let sdb = load(&types, &[param(0, 0x72, 1, b".outer")]).unwrap();
    match Value::parse(&[9], &type_of(&sdb, ".outer")).unwrap() {
        Value::Struct(fields) => match &fields[0].1 {
            Value::Array(items) => assert_eq!(int_of(&items[0]), 9),
            other => panic!("not an array: {:?}", other),
        },
        other => panic!("not a structure: {:?}", other),
    }
}

#[test]
fn user_name_is_padded_to_sixteen_bytes() {
    let sdb = fixture();
    let ty = type_of(&sdb, ".CockpitUser");
    let expected = vec![0x55, 0x73, 0x65, 0x72, 0x31, 0x32, 0x33, 0x34, 0, 0, 0, 0, 0, 0, 0, 0];
    assert_eq!(b"User1234".opc_encode(&ty), Ok(expected.clone()));
    assert_eq!((&b"User1234"[..]).opc_encode(&ty), Ok(expected.clone()));
    assert_eq!(encode_bytes(b"User1234", &ty), Ok(expected.clone()));
    assert_eq!((&Value::String("User1234".to_string())).opc_encode(&ty), Ok(expected));
}

#[test]
fn strings_are_encoded_into_code_page_1252() {
    let sdb = fixture();
    let ty = type_of(&sdb, ".CockpitUser");
    let mut expected = vec![0xE9, 0x80, b'a'];
    expected.resize(16, 0);
    assert_eq!((&Value::String("\u{e9}\u{20ac}a".to_string())).opc_encode(&ty), Ok(expected));
    assert_eq!(
        (&Value::String("crab \u{1f980}".to_string())).opc_encode(&ty),
        Err(EncodeError::NotInCodePage)
    );
    // sixteen characters that are thirty-two bytes in UTF-8 still fit
    let wide = "\u{e4}".repeat(16);
    assert_eq!((&Value::String(wide)).opc_encode(&ty), Ok(vec![0xE4; 16]));
    assert_eq!(encode_converted(None, &ty), Err(EncodeError::NotInCodePage));
    assert_eq!(encode_converted(Some(vec![1, 2]), &ty).unwrap().len(), 16);
}

#[test]
fn strings_that_do_not_fit_are_refused() {
    let sdb = fixture();
    let ty = type_of(&sdb, ".CockpitUser");
    assert_eq!(encode_bytes(&[b'a'; 16], &ty), Ok(vec![b'a'; 16]));
    assert_eq!(encode_bytes(&[b'a'; 17], &ty), Err(EncodeError::StringTooLong));
    assert_eq!(encode_bytes(&[], &ty), Ok(vec![0; 16]));
    assert_eq!(
        (&Value::String("seventeen letters".to_string())).opc_encode(&ty),
        Err(EncodeError::StringTooLong)
    );
    assert_eq!(encode_bytes(b"x", &type_of(&sdb, ".Count")), Err(EncodeError::UnsupportedKind));
}

#[test]
fn whole_numbers_are_checked_against_the_width() {
    let sdb = fixture();
    let byte = type_of(&sdb, ".Level");
    let int = type_of(&sdb, ".Offset");
    let word = type_of(&sdb, ".Count");
    let uint = type_of(&sdb, ".Small");
    let dword = type_of(&sdb, ".Total");
    let udint = type_of(&sdb, ".Large");
    assert_eq!(255i64.opc_encode(&byte), Ok(vec![0xFF]));
    assert_eq!(0u8.opc_encode(&byte), Ok(vec![0]));
    assert_eq!(256i64.opc_encode(&byte), Err(EncodeError::OutOfRange));
    assert_eq!((-1i8).opc_encode(&byte), Err(EncodeError::OutOfRange));
    assert_eq!((-2i16).opc_encode(&int), Ok(vec![0xFF, 0xFE]));
    assert_eq!((-32768i32).opc_encode(&int), Ok(vec![0x80, 0x00]));
    assert_eq!(32767u16.opc_encode(&int), Ok(vec![0x7F, 0xFF]));
    assert_eq!(32768u32.opc_encode(&int), Err(EncodeError::OutOfRange));
    assert_eq!((-32769isize).opc_encode(&int), Err(EncodeError::OutOfRange));
    assert_eq!(0x1234usize.opc_encode(&word), Ok(vec![0x12, 0x34]));
    assert_eq!(65535u64.opc_encode(&uint), Ok(vec![0xFF, 0xFF]));
    assert_eq!(65536i64.opc_encode(&word), Err(EncodeError::OutOfRange));
    assert_eq!((-1i64).opc_encode(&uint), Err(EncodeError::OutOfRange));
    assert_eq!(0x0102_0304u32.opc_encode(&dword), Ok(vec![1, 2, 3, 4]));
    assert_eq!(u32::MAX.opc_encode(&udint), Ok(vec![0xFF; 4]));
    assert_eq!(4294967296u64.opc_encode(&dword), Err(EncodeError::OutOfRange));
    assert_eq!(u64::MAX.opc_encode(&udint), Err(EncodeError::OutOfRange));
    let time = type_of(&sdb, ".Uptime");
    assert_eq!(1000u32.opc_encode(&time), Ok(vec![0x00, 0x00, 0x03, 0xE8]));
    assert_eq!((&Value::Int(0)).opc_encode(&time), Ok(vec![0; 4]));
    assert_eq!(u32::MAX.opc_encode(&time), Ok(vec![0xFF; 4]));
    assert_eq!(4294967296i64.opc_encode(&time), Err(EncodeError::OutOfRange));
    assert_eq!((-1i32).opc_encode(&time), Err(EncodeError::OutOfRange));
    assert_eq!(encode_whole(-1, &udint), Err(EncodeError::OutOfRange));
    assert_eq!(encode_whole(i128::MAX, &udint), Err(EncodeError::OutOfRange));
}

#[test]
fn only_scalars_and_strings_can_be_written() {
    let sdb = fixture();
    for name in [".Flag", ".Ref", ".Words", ".Pair", ".CockpitUser"] {
        assert_eq!(5i64.opc_encode(&type_of(&sdb, name)), Err(EncodeError::UnsupportedKind));
    }
    assert_eq!(
        5i64.opc_encode(&type_of(&sdb, ".Gauge[1].Parameter[1].Value")),
        Err(EncodeError::UnsupportedKind)
    );
    let flag = type_of(&sdb, ".Flag");
    assert_eq!((&Value::Bool(true)).opc_encode(&flag), Ok(vec![1]));
    assert_eq!((&Value::Bool(false)).opc_encode(&flag), Ok(vec![0]));
    assert_eq!(
        (&Value::Bool(true)).opc_encode(&type_of(&sdb, ".Level")),
        Err(EncodeError::UnsupportedKind)
    );
    assert_eq!(
        (&Value::Float(0x3F80_0000)).opc_encode(&type_of(&sdb, ".Gauge[1].Parameter[1].Value")),
        Err(EncodeError::UnsupportedKind)
    );
    assert_eq!(
        (&Value::Array(vec![])).opc_encode(&type_of(&sdb, ".Words")),
        Err(EncodeError::UnsupportedKind)
    );
    assert_eq!(
        (&Value::Struct(vec![])).opc_encode(&type_of(&sdb, ".Pair")),
        Err(EncodeError::UnsupportedKind)
    );
    assert_eq!(
        (&Value::Matrix(vec![])).opc_encode(&type_of(&sdb, ".Matrix")),
        Err(EncodeError::UnsupportedKind)
    );
}

#[test]
fn what_was_written_is_read_back() {
    let sdb = fixture();
    let cases: [(&str, i64); 17] = [
        (".Uptime", 0),
        (".Uptime", 1000),
        (".Uptime", 4294967295),
        (".Level", 0),
        (".Level", 255),
        (".Offset", -32768),
        (".Offset", -1),
        (".Offset", 32767),
        (".Count", 0),
        (".Count", 65535),
        (".Small", 4660),
        (".Total", 0),
        (".Total", 4294967295),
        (".Large", 305419896),
        (".Large", 2147483648),
        (".Offset", 0),
        (".Level", 128),
    ];
    for (name, x) in cases {
        let ty = type_of(&sdb, name);
        let bytes = x.opc_encode(&ty).unwrap();
        assert_eq!(bytes.len(), ty.response_len());
        assert_eq!(int_of(&Value::parse(&bytes, &ty).unwrap()), x);
    }
    let flag = type_of(&sdb, ".Flag");
    for b in [false, true] {
        let bytes = (&Value::Bool(b)).opc_encode(&flag).unwrap();
        assert!(matches!(Value::parse(&bytes, &flag), Ok(Value::Bool(r)) if r == b));
    }
    let user = type_of(&sdb, ".CockpitUser");
    for text in [&b""[..], b"a", b"User1234", b"sixteen letters!", b"trailing\0\0"] {
        let bytes = encode_bytes(text, &user).unwrap();
        assert_eq!(bytes.len(), 16);
        let mut stripped = text.to_vec();
        while stripped.last() == Some(&0) {
            stripped.pop();
        }
        let expected = String::from_utf8(stripped).unwrap();
        assert!(matches!(Value::parse(&bytes, &user), Ok(Value::String(s)) if s == expected));
    }
    // a NUL inside the text cuts it short
    let bytes = encode_bytes(b"ab\0cd", &user).unwrap();
    assert!(matches!(Value::parse(&bytes, &user), Ok(Value::String(s)) if s == "ab"));
}

#[test]
fn values_are_read_from_text() {
    let sdb = fixture();
    let p = |name: &str| sdb.param_by_name(name).unwrap();
    assert!(matches!(p(".Flag").value_from_str("true"), Ok(Value::Bool(true))));
    assert!(matches!(p(".Flag").value_from_str("false"), Ok(Value::Bool(false))));
    assert!(matches!(p(".Flag").value_from_str("True"), Err(ParseValueError::BadBool)));
    assert!(matches!(p(".Flag").value_from_str("1"), Err(ParseValueError::BadBool)));
    assert!(matches!(p(".Flag").value_from_str(""), Err(ParseValueError::BadBool)));
    assert!(matches!(p(".Flag").value_from_str("true "), Err(ParseValueError::BadBool)));
    assert!(matches!(p(".Level").value_from_str("200"), Ok(Value::Int(200))));
    assert!(matches!(p(".Level").value_from_str("+7"), Ok(Value::Int(7))));
    assert!(matches!(p(".Offset").value_from_str("-12"), Ok(Value::Int(-12))));
    assert!(matches!(p(".Total").value_from_str("004294967295"), Ok(Value::Int(4294967295))));
    assert!(matches!(
        p(".Level").value_from_str("256"),
        Err(ParseValueError::Encode(EncodeError::OutOfRange))
    ));
    assert!(matches!(
        p(".Count").value_from_str("-1"),
        Err(ParseValueError::Encode(EncodeError::OutOfRange))
    ));
    assert!(matches!(p(".Count").value_from_str("12a"), Err(ParseValueError::BadNumber)));
    assert!(matches!(p(".Count").value_from_str(" 12"), Err(ParseValueError::BadNumber)));
    assert!(matches!(p(".Count").value_from_str(""), Err(ParseValueError::BadNumber)));
    assert!(matches!(p(".Count").value_from_str("0x10"), Err(ParseValueError::BadNumber)));
    assert!(matches!(
        p(".Count").value_from_str("99999999999999999999"),
        Err(ParseValueError::BadNumber)
    ));
    assert!(matches!(
        p(".CockpitUser").value_from_str("User1234"),
        Ok(Value::String(s)) if s == "User1234"
    ));
    assert!(matches!(
        p(".CockpitUser").value_from_str("seventeen letters"),
        Err(ParseValueError::Encode(EncodeError::StringTooLong))
    ));
    assert!(matches!(
        p(".CockpitUser").value_from_str("\u{4e2d}"),
        Err(ParseValueError::Encode(EncodeError::NotInCodePage))
    ));
    assert!(matches!(p(".Uptime").value_from_str("1000"), Ok(Value::Int(1000))));
    assert!(matches!(p(".Uptime").value_from_str("4294967295"), Ok(Value::Int(4294967295))));
    assert!(matches!(
        p(".Uptime").value_from_str("4294967296"),
        Err(ParseValueError::Encode(EncodeError::OutOfRange))
    ));
    assert!(matches!(
        p(".Uptime").value_from_str("-1"),
        Err(ParseValueError::Encode(EncodeError::OutOfRange))
    ));
    assert!(matches!(p(".Uptime").value_from_str("1s"), Err(ParseValueError::BadNumber)));
    for name in [".Gauge[1].Parameter[1].Value", ".Words", ".Pair", ".Ref"] {
        assert!(matches!(
            p(name).value_from_str("1"),
            Err(ParseValueError::Encode(EncodeError::UnsupportedKind))
        ));
    }
    assert!(matches!(
        Value::from_str("42", &type_of(&sdb, ".Small")),
        Ok(Value::Int(42))
    ));
}

#[test]
fn a_copy_of_a_value_is_the_same_value() {
    let v = Value::Struct(vec![
        ("a".to_string(), Value::Array(vec![Value::Int(1), Value::Bool(true)])),
        (
            "m".to_string(),
            Value::Matrix(vec![vec![Value::Float(7)], vec![Value::String("x".to_string())]]),
        ),
    ]);
    assert_eq!(format!("{:?}", v.clone()), format!("{:?}", v));
}

// ---- packets ------------------------------------------------------------

#[test]
fn single_read_request_is_framed_as_captured() {
    let sdb = fixture();
    let mut set = ParamQuerySetBuilder::new(&sdb);
    assert!(set.is_empty());
    set.add(".Gauge[1].Parameter[1].Value").unwrap();
    assert!(!set.is_empty());
    let pkt = set.into_query_packet();
    assert_eq!(pkt.hdr.one_if_data_poll_maybe, 1);
    assert_eq!(pkt.hdr.b17, 0x23);
    let bytes = pkt.to_bytes().unwrap();
    // both length fields state the twenty bytes of the body
    let expected_header = [
        0xCC, 0xCC, 0x00, 0x01, 0x00, 0x00, 0x00, 0x14, 0, 0, 0, 0, 0, 0, 0, 0, 0x00, 0x00, 0x00,
        0x01, 0x00, 0x00, 0x14, 0x23,
    ];
    let expected_body = [
        0x2e, 0x00, 0x00, 0x00, 0x00, 0x01, 0x00, 0x03, 0x00, 0x04, 0x78, 0x7C, 0x00, 0x00, 0x00,
        0x04, 0x00, 0x02, 0x53, 0x34,
    ];
    assert_eq!(&bytes[..24], &expected_header[..]);
    assert_eq!(&bytes[24..], &expected_body[..]);
    let hdr = PacketCCHeader::read(&bytes).unwrap();
    assert_eq!(hdr.payload_len as usize, expected_body.len());
    assert_eq!(hdr.one_if_data_poll_maybe, 1);
    assert_eq!(hdr.b17, 0x23);
}

#[test]
fn float_response_is_parsed_with_its_timestamp() {
    let sdb = fixture();
    let mut set = ParamQuerySetBuilder::new(&sdb);
    set.add(".Gauge[1].Parameter[1].Value").unwrap();
    let pkt = set.into_query_packet();
    let body = [0x00, 0x00, 0x00, 0x00, 0x03, 0xE8, 0x01, 0x40, 0x49, 0x0F, 0xDB];
    let frame = response_frame(&body);
    let r: PacketCC<ParamReadDynResponse> =
        PacketCC::from_bytes(&frame, pkt.payload.get_response_read_arg()).unwrap();
    assert_eq!(r.hdr.b17, 0x27);
    assert_eq!(r.payload.error_code, 0);
    assert_eq!(r.payload.status(), Ok(()));
    assert_eq!(r.payload.timestamp, 1000);
    assert_eq!(r.payload.data.len(), 1);
    assert!(r.tail.is_empty());
    match r.payload.data[0] {
        Value::Float(bits) => {
            assert!((f32::from_bits(bits) - 3.1415927).abs() < 1e-6);
            assert_eq!(bits, 0x4049_0FDB);
        }
        ref other => panic!("not a float: {:?}", other),
    }
}

fn response_frame(body: &[u8]) -> Vec<u8> {
    let mut hdr = PacketCCHeader::default();
    hdr.b17 = 0x27;
    let mut frame = Vec::new();
    hdr.write(&mut frame, body.len() as u16);
    frame.extend_from_slice(body);
    frame
}

#[test]
fn header_fields_survive_a_round_trip() {
    let hdr = PacketCCHeader {
        u16_zero: 0x0102,
        payload_len: 9999,
        u64_8_f: 0x1122_3344_5566_7788,
        one_if_data_poll_maybe: 0xA1B2_C3D4,
        u8_14: 0x5A,
        len2: 7777,
        b17: 0x27,
    };
    let mut frame = Vec::new();
    hdr.write(&mut frame, 3);
    assert_eq!(frame.len(), 24);
    assert_eq!(&frame[..4], &[0xCC, 0xCC, 0x00, 0x01]);
    frame.extend_from_slice(&[1, 2, 3]);
    let back = PacketCCHeader::read(&frame).unwrap();
    assert_eq!(back.payload_len as usize, frame.len() - 24);
    assert_eq!(back.len2, 3);
    assert_eq!(back, PacketCCHeader { payload_len: 3, len2: 3, ..hdr });
    assert_eq!(PacketCCHeader::new_cmd(), PacketCCHeader { b17: 0x23, ..PacketCCHeader::default() });
}

#[test]
fn written_frames_state_their_own_length() {
    for n in [0usize, 1, 17, 255, 256, 65535] {
        let pkt = PacketCC::new(PayloadUnknown::from_bytes(&vec![0x5A; n]));
        let bytes = pkt.to_bytes().unwrap();
        let hdr = PacketCCHeader::read(&bytes).unwrap();
        assert_eq!(hdr.payload_len as usize, bytes.len() - 24);
        assert_eq!(hdr.len2, hdr.payload_len);
        assert_eq!(&bytes[..4], &0xCCCC0001u32.to_be_bytes());
        let back: PacketCC<PayloadUnknown> = PacketCC::from_bytes(&bytes, ()).unwrap();
        assert_eq!(back.payload.data, vec![0x5A; n]);
        assert!(back.tail.is_empty());
    }
    let too_long = PacketCC::new(PayloadUnknown::from_bytes(&vec![0; 65536]));
    assert_eq!(too_long.to_bytes(), Err(WireError::BadLength));
}

#[test]
fn bad_frames_are_refused() {
    assert_eq!(PacketCCHeader::read(&[0xCC, 0xCC, 0x00]), Err(WireError::BadLength));
    assert_eq!(PacketCCHeader::read(&[0xCC, 0xCC, 0x00, 0x02]), Err(WireError::BadMagic));
    assert_eq!(PacketCCHeader::read(&[0xCC, 0xCC, 0x00, 0x01]), Err(WireError::BadLength));
    let mut frame = response_frame(&[1, 2, 3]);
    frame[0] = 0x66;
    assert_eq!(PacketCCHeader::read(&frame), Err(WireError::BadMagic));
    let mut frame = response_frame(&[1, 2, 3]);
    frame.push(4);
    assert!(matches!(
        PacketCC::<PayloadUnknown>::from_bytes(&frame, ()),
        Err(ResponseError::Wire(WireError::BadLength))
    ));
    frame.truncate(26);
    assert!(matches!(
        PacketCC::<PayloadUnknown>::from_bytes(&frame, ()),
        Err(ResponseError::Wire(WireError::BadLength))
    ));
    assert!(matches!(
        PacketCC::<PayloadUnknown>::from_bytes(&[0; 24], ()),
        Err(ResponseError::Wire(WireError::BadMagic))
    ));
}

#[test]
fn values_come_back_in_the_order_of_the_request() {
    let sdb = fixture();
    let mut set = ParamQuerySetBuilder::new(&sdb);
    set.add(".Level").unwrap();
    set.add(".Count").unwrap();
    set.add_param(sdb.param_by_name(".CockpitUser").unwrap());
    set.add(".Pair").unwrap();
    set.add(".Flag").unwrap();
    assert!(set.add(".Missing").is_err());
    let pkt = set.into_query_packet();
    let request = pkt.to_bytes().unwrap();
    // five entries of ten bytes between the count and the closing id
    assert_eq!(request.len(), 24 + 2 + 4 + 50 + 4);
    assert_eq!(&request[24..30], &[0x2e, 0x00, 0, 0, 0, 5]);
    assert_eq!(&request[30..40], &[0, 3, 0, 0, 0x01, 0x02, 0, 0, 0, 1]);
    assert_eq!(&request[40..50], &[0, 3, 0, 0, 0x01, 0x03, 0, 0, 0, 2]);
    assert_eq!(&request[50..60], &[0, 3, 0, 0, 0xDE, 0xAD, 0, 0, 0, 16]);
    assert_eq!(&request[60..70], &[0, 3, 0, 0, 0x01, 0x07, 0, 0, 0, 4]);
    assert_eq!(&request[70..80], &[0, 3, 0, 0, 0x01, 0x00, 0, 0, 0, 1]);
    assert_eq!(&request[80..], &[0x00, 0x02, 0x53, 0x34]);

    let mut body = vec![0, 0, 0, 0, 0, 5];
    body.extend_from_slice(&[1, 0x2A]);
    // alignment starts anew with each value: this word stands at an odd
    // offset of the body and is read without padding
    body.extend_from_slice(&[1, 0x12, 0x34]);
    body.push(1);
    body.extend_from_slice(b"name\0\0\0\0\0\0\0\0\0\0\0\0");
    body.extend_from_slice(&[1, 0xAA, 0x00, 0xFF, 0x12]);
    body.extend_from_slice(&[1, 1]);
    body.extend_from_slice(&[0xEE, 0xEF]);
    let frame = response_frame(&body);
    let r: PacketCC<ParamReadDynResponse> =
        PacketCC::from_bytes(&frame, pkt.payload.get_response_read_arg()).unwrap();
    assert_eq!(r.tail, vec![0xEE, 0xEF]);
    assert_eq!(r.payload.timestamp, 5);
    let pairs = r.payload.iter();
    let names: Vec<&str> = pairs.iter().map(|(p, _)| p.name()).collect();
    assert_eq!(names, vec![".Level", ".Count", ".CockpitUser", ".Pair", ".Flag"]);
    assert_eq!(int_of(pairs[0].1), 0x2A);
    assert_eq!(int_of(pairs[1].1), 0x1234);
    assert!(matches!(pairs[2].1, Value::String(s) if s == "name"));
    match pairs[3].1 {
        Value::Struct(fields) => {
            assert_eq!(int_of(&fields[0].1), 0xAA);
            assert_eq!(int_of(&fields[1].1), 0xFF12);
        }
        other => panic!("not a structure: {:?}", other),
    }
    assert!(matches!(pairs[4].1, Value::Bool(true)));
    assert_eq!(r.payload.query_set.0.len(), 5);
}

#[test]
fn response_faults_are_told_apart() {
    let sdb = fixture();
    let set = || {
        let mut set = ParamQuerySetBuilder::new(&sdb);
        set.add(".Count").unwrap();
        set.add(".Level").unwrap();
        set.into_query_packet().payload.get_response_read_arg()
    };
    let read = |body: &[u8]| -> Result<PacketCC<ParamReadDynResponse>, ResponseError> {
        PacketCC::from_bytes(&response_frame(body), set())
    };
    assert!(read(&[0, 0, 0, 0, 0, 1, 1, 0, 7, 1, 9]).is_ok());
    assert!(matches!(
        read(&[0, 0, 0, 0, 0]),
        Err(ResponseError::Decode(DecodeError::Truncated))
    ));
    assert!(matches!(
        read(&[0, 0, 0, 0, 0, 1]),
        Err(ResponseError::Decode(DecodeError::Truncated))
    ));
    assert!(matches!(
        read(&[0, 0, 0, 0, 0, 1, 2, 0, 7, 1, 9]),
        Err(ResponseError::Decode(DecodeError::BadMarker))
    ));
    assert!(matches!(
        read(&[0, 0, 0, 0, 0, 1, 1, 0, 7, 0, 9]),
        Err(ResponseError::Decode(DecodeError::BadMarker))
    ));
    assert!(matches!(
        read(&[0, 0, 0, 0, 0, 1, 1, 0]),
        Err(ResponseError::Decode(DecodeError::Truncated))
    ));
    assert!(matches!(
        read(&[0, 0, 0, 0, 0, 1, 1, 0, 7, 1]),
        Err(ResponseError::Decode(DecodeError::Truncated))
    ));
    let bad_status = read(&[0x12, 0x34, 0, 0, 0, 1, 1, 0, 7, 1, 9]).unwrap();
    assert_eq!(bad_status.payload.status(), Err(WireError::BadStatus(0x1234)));
}

#[test]
fn empty_request_has_no_entries() {
    let sdb = fixture();
    let pkt = ParamQuerySetBuilder::new(&sdb).into_query_packet();
    let bytes = pkt.to_bytes().unwrap();
    assert_eq!(&bytes[24..], &[0x2e, 0x00, 0, 0, 0, 0, 0x00, 0x02, 0x53, 0x34]);
    let r: PacketCC<ParamReadDynResponse> = PacketCC::from_bytes(
        &response_frame(&[0, 0, 0, 0, 0, 9]),
        pkt.payload.get_response_read_arg(),
    )
    .unwrap();
    assert!(r.payload.data.is_empty());
    assert!(r.payload.iter().is_empty());
}

#[test]
fn read_query_can_be_built_from_a_query_set() {
    let sdb = fixture();
    let set = ParamQuerySet(vec![
        sdb.param_by_name(".Total").unwrap(),
        sdb.param_by_name(".Flag").unwrap(),
    ]);
    let copy = set.clone();
    assert_eq!(copy.0.len(), 2);
    assert_eq!(copy.0[1].name(), ".Flag");
    let pkt = PacketCC::new(ParamsReadQuery::new(&sdb, set));
    assert_eq!(pkt.hdr, PacketCCHeader::new_cmd());
    let bytes = pkt.to_bytes().unwrap();
    assert_eq!(&bytes[30..40], &[0, 3, 0, 0, 0x01, 0x04, 0, 0, 0, 4]);
    let _ = ParamRead::new(1, 2);
}

#[test]
fn write_request_carries_the_encoded_values() {
    let sdb = fixture();
    let user = sdb.param_by_name(".CockpitUser").unwrap();
    let count = sdb.param_by_name(".Count").unwrap();
    let writes = [
        ParamWrite::new(&user, b"User1234").unwrap(),
        ParamWrite::new(&count, 258u16).unwrap(),
        ParamWrite::new(&count, &Value::Int(3)).unwrap(),
    ];
    let pkt = PacketCC::new(PayloadParamWrite::new(&sdb, &writes));
    assert_eq!(pkt.hdr.one_if_data_poll_maybe, 0);
    let bytes = pkt.to_bytes().unwrap();
    let mut expected = vec![0x3c, 0x00, 0, 0, 0, 3];
    expected.extend_from_slice(&[0, 3, 0, 0, 0xDE, 0xAD, 0, 0, 0, 16]);
    expected.extend_from_slice(b"User1234\0\0\0\0\0\0\0\0");
    expected.extend_from_slice(&[0, 3, 0, 0, 0x01, 0x03, 0, 0, 0, 2, 0x01, 0x02]);
    expected.extend_from_slice(&[0, 3, 0, 0, 0x01, 0x03, 0, 0, 0, 2, 0x00, 0x03]);
    expected.extend_from_slice(&[0x00, 0x02, 0x53, 0x34]);
    assert_eq!(&bytes[24..], &expected[..]);
    assert_eq!(bytes[6..8], (expected.len() as u16).to_be_bytes());
    assert_eq!(bytes[21..23], (expected.len() as u16).to_be_bytes());
    assert!(matches!(ParamWrite::new(&count, 65536u32), Err(EncodeError::OutOfRange)));
    assert!(matches!(ParamWrite::new(&count, b"x"), Err(EncodeError::UnsupportedKind)));
    let copy = writes[1].duplicate();
    let again = PacketCC::new(PayloadParamWrite::new(&sdb, &[copy])).to_bytes().unwrap();
    assert_eq!(&again[30..42], &[0, 3, 0, 0, 0x01, 0x03, 0, 0, 0, 2, 0x01, 0x02]);
}

#[test]
fn fixed_commands_are_framed_as_captured() {
    let name = b"\0\0\x0eDOWNLOAD.SDB\0\0";
    let version = SdbVersionQuery::pkt().to_bytes().unwrap();
    assert_eq!(version[24], 0x34);
    assert_eq!(&version[25..], &name[..]);
    assert_eq!(version[7], 18);
    assert_eq!(version[23], 0x23);
    assert_eq!(version[19], 0);
    let begin = SdbDownloadRequest::pkt().to_bytes().unwrap();
    assert_eq!(begin[24], 0x31);
    assert_eq!(&begin[25..], &name[..]);
    let next = SdbDownloadContinue::pkt().to_bytes().unwrap();
    assert_eq!(&next[24..], &[0x32]);
    assert_eq!(next[7], 1);
    let instrument = PacketCC::new(InstrumentVersionQuery).to_bytes().unwrap();
    assert_eq!(&instrument[24..], &[0x11]);
    assert_eq!(SdbVersionQuery::pkt().hdr, PacketCCHeader::new_cmd());
    assert_eq!(SdbDownloadRequest::pkt().hdr, PacketCCHeader::new_cmd());
    assert_eq!(SdbDownloadContinue::pkt().hdr, PacketCCHeader::new_cmd());
    assert!(SdbVersionQuery::pkt().tail.is_empty());
    assert!(SdbDownloadRequest::pkt().tail.is_empty());
    assert!(SdbDownloadContinue::pkt().tail.is_empty());
    // a command made by hand is the command that `pkt` frames
    assert_eq!(PacketCC::new(SdbVersionQuery::new()).to_bytes().unwrap(), version);
    assert_eq!(PacketCC::new(SdbDownloadRequest::new()).to_bytes().unwrap(), begin);
}

#[test]
fn fixed_responses_are_read() {
    let mut body = vec![0x00, 0x07, 0x00, 0x02, 0x53, 0x34, 0x57, 0xdb, 0xe3, 0xce];
    body.extend_from_slice(b"VacVision");
    let r: PacketCC<InstrumentVersionResponse> =
        PacketCC::from_bytes(&response_frame(&body), ()).unwrap();
    assert_eq!(r.payload.error_code, 7);
    assert_eq!(r.payload.sdb_version, 0x0002_5334);
    assert_eq!(r.payload.u32_0, 0x57db_e3ce);
    assert_eq!(r.payload.str_descr, b"VacVision".to_vec());
    assert!(r.tail.is_empty());
    assert!(matches!(
        PacketCC::<InstrumentVersionResponse>::from_bytes(&response_frame(&body[..9]), ()),
        Err(ResponseError::Decode(DecodeError::Truncated))
    ));

    let mut body = vec![0x00, 0x00, 0x00, 0x01, 0x02, 0x03];
    body.extend(1..=16u8);
    body.extend_from_slice(&[0x77]);
    let r: PacketCC<SdbVersionResponse> = PacketCC::from_bytes(&response_frame(&body), ()).unwrap();
    assert_eq!(r.payload.error_code, 0);
    assert_eq!(r.payload.sbd_size, 0x0001_0203);
    assert_eq!(r.payload.data, [1, 2, 3, 4, 5, 6, 7, 8, 9, 10, 11, 12, 13, 14, 15, 16]);
    assert_eq!(r.tail, vec![0x77]);
    assert!(matches!(
        PacketCC::<SdbVersionResponse>::from_bytes(&response_frame(&body[..21]), ()),
        Err(ResponseError::Decode(DecodeError::Truncated))
    ));
}

#[test]
fn download_parts_are_read() {
    let body = [0, 0, 0, 1, 0, 3, 9, 8, 7, 6];
    let r: PacketCC<SdbDownload> = PacketCC::from_bytes(&response_frame(&body), ()).unwrap();
    assert!(r.payload.continues);
    assert_eq!(r.payload.pkt_sdb_part_len, 3);
    assert_eq!(r.payload.sdb_part, vec![9, 8, 7]);
    assert_eq!(r.tail, vec![6]);
    let last: PacketCC<SdbDownload> =
        PacketCC::from_bytes(&response_frame(&[0, 0, 0, 0, 0, 0]), ()).unwrap();
    assert!(!last.payload.continues);
    assert!(last.payload.sdb_part.is_empty());
    let read = |body: &[u8]| PacketCC::<SdbDownload>::from_bytes(&response_frame(body), ());
    assert!(matches!(read(&[0, 0, 0, 2, 0, 0]), Err(ResponseError::Decode(DecodeError::BadMarker))));
    assert!(matches!(read(&[1, 0, 0, 0, 0, 0]), Err(ResponseError::Decode(DecodeError::BadMarker))));
    assert!(matches!(read(&[0, 0, 0]), Err(ResponseError::Decode(DecodeError::Truncated))));
    assert!(matches!(read(&[0, 0, 0, 1, 0]), Err(ResponseError::Decode(DecodeError::Truncated))));
    assert!(matches!(
        read(&[0, 0, 0, 1, 0, 2, 5]),
        Err(ResponseError::Decode(DecodeError::Truncated))
    ));
}

#[test]
fn a_downloaded_database_is_parsed_as_it_came() {
    // the bytes of a database, cut into parts, sent, and put together again
    let blob = fixture_blob();
    let mut sink = Vec::new();
    for (i, part) in blob.chunks(100).enumerate() {
        let more = (i + 1) * 100 < blob.len();
        let mut body = vec![0, 0, 0, more as u8];
        body.extend((part.len() as u16).to_be_bytes());
        body.extend_from_slice(part);
        let r: PacketCC<SdbDownload> = PacketCC::from_bytes(&response_frame(&body), ()).unwrap();
        assert_eq!(r.payload.continues, more);
        sink.extend_from_slice(&r.payload.sdb_part);
    }
    assert_eq!(sink, blob);
    assert_eq!(Sdb::from_bytes(&sink).unwrap().param_by_name(".CockpitUser").unwrap().id(), 0xDEAD);
}
