use contract_schema::bignum::BigNum;
use contract_schema::codec::{ConversionError, EnumValue, Member};
use contract_schema::generate::{
    derive_type_enum, derive_type_struct, CaseDef, ErrorOrigin, FieldDef, GenerationError,
};
use contract_schema::ident::{CompactIdentifier, IdentError, MAX_IDENT_LEN};
use contract_schema::types::{
    type_def_from_str, ErrorKind, ScalarKind, TypeDescriptor, TypeExpr, KW_BINARY, KW_BITSET,
    KW_BOOL, KW_I32, KW_I64, KW_MAP, KW_OPTION, KW_SET, KW_STATUS, KW_SYMBOL, KW_U32, KW_U64,
    KW_VEC, MAX_TYPE_DEPTH,
};
use contract_schema::value::{SymbolMap, Val};

fn path(name: &str) -> TypeExpr {
    TypeExpr::Path { name: name.as_bytes().to_vec(), args: vec![] }
}

fn generic(name: &str, args: Vec<TypeExpr>) -> TypeExpr {
    TypeExpr::Path { name: name.as_bytes().to_vec(), args }
}

fn code(name: &str) -> u64 {
    CompactIdentifier::new(&name.as_bytes().to_vec()).unwrap().code()
}

fn field(name: &str, ty: TypeExpr, visible: bool) -> FieldDef {
    FieldDef { name: Some(name.as_bytes().to_vec()), ty, visible }
}

fn case(name: &str, fields: Vec<TypeExpr>) -> CaseDef {
    CaseDef { name: name.as_bytes().to_vec(), fields }
}

fn point_fields() -> Vec<FieldDef> {
    vec![field("x", path("i32"), true), field("y", path("i32"), true)]
}

fn shape_cases() -> Vec<CaseDef> {
    vec![case("Circle", vec![path("i32")]), case("Empty", vec![])]
}

#[test]
fn map_of_symbol_to_i32_resolves() {
    let d = type_def_from_str(&generic("Map", vec![path("Symbol"), path("i32")])).unwrap();
    assert_eq!(
        d,
        TypeDescriptor::Mapping(
            Box::new(TypeDescriptor::Scalar(ScalarKind::Symbol)),
            Box::new(TypeDescriptor::Scalar(ScalarKind::I32))
        )
    );
}

#[test]
fn vec_of_option_u64_resolves() {
    let d = type_def_from_str(&generic("Vec", vec![generic("Option", vec![path("u64")])])).unwrap();
    assert_eq!(
        d,
        TypeDescriptor::Sequence(Box::new(TypeDescriptor::Optional(Box::new(
            TypeDescriptor::Scalar(ScalarKind::U64)
        ))))
    );
}

#[test]
fn resolves_every_scalar_keyword() {
    let cases = [
        ("u32", ScalarKind::U32),
        ("i32", ScalarKind::I32),
        ("u64", ScalarKind::U64),
        ("i64", ScalarKind::I64),
        ("bool", ScalarKind::Bool),
        ("Symbol", ScalarKind::Symbol),
        ("Bitset", ScalarKind::Bitset),
        ("Status", ScalarKind::Status),
        ("Binary", ScalarKind::Binary),
    ];
    for (name, kind) in cases {
        assert_eq!(type_def_from_str(&path(name)).unwrap(), TypeDescriptor::Scalar(kind));
    }
}

#[test]
fn keyword_codes_match_their_names() {
    assert_eq!(code("u32"), KW_U32);
    assert_eq!(code("i32"), KW_I32);
    assert_eq!(code("u64"), KW_U64);
    assert_eq!(code("i64"), KW_I64);
    assert_eq!(code("bool"), KW_BOOL);
    assert_eq!(code("Symbol"), KW_SYMBOL);
    assert_eq!(code("Bitset"), KW_BITSET);
    assert_eq!(code("Status"), KW_STATUS);
    assert_eq!(code("Binary"), KW_BINARY);
    assert_eq!(code("Option"), KW_OPTION);
    assert_eq!(code("Vec"), KW_VEC);
    assert_eq!(code("Set"), KW_SET);
    assert_eq!(code("Map"), KW_MAP);
}

#[test]
fn resolves_tuples_sets_and_user_types() {
    let d = type_def_from_str(&TypeExpr::Tuple(vec![
        path("bool"),
        generic("Set", vec![path("Account")]),
    ]))
    .unwrap();
    match d {
        TypeDescriptor::Tuple(es) => {
            assert_eq!(es.len(), 2);
            assert_eq!(es[0], TypeDescriptor::Scalar(ScalarKind::Bool));
            match &es[1] {
                TypeDescriptor::SetType(inner) => match inner.as_ref() {
                    TypeDescriptor::UserDefined(id) => assert_eq!(id.name(), &b"Account".to_vec()),
                    other => panic!("unexpected {:?}", other),
                },
                other => panic!("unexpected {:?}", other),
            }
        }
        other => panic!("unexpected {:?}", other),
    }
    assert_eq!(type_def_from_str(&TypeExpr::Tuple(vec![])).unwrap(), TypeDescriptor::Tuple(vec![]));
}

#[test]
fn wrong_argument_counts_are_unsupported() {
    let bad = [
        path("Option"),
        path("Map"),
        generic("Vec", vec![path("u32"), path("u32")]),
        generic("Map", vec![path("u32")]),
        generic("Point", vec![path("u32")]),
        generic("u32", vec![path("u32")]),
    ];
    for e in bad.iter() {
        assert_eq!(type_def_from_str(e), Err(ErrorKind::UnsupportedType));
    }
}

#[test]
fn nesting_depth_is_bounded() {
    let mut e = path("u32");
    for _ in 0..(MAX_TYPE_DEPTH - 1) {
        e = generic("Option", vec![e]);
    }
    assert!(type_def_from_str(&e).is_ok());
    let deeper = generic("Option", vec![e]);
    assert_eq!(type_def_from_str(&deeper), Err(ErrorKind::NestingTooDeep));
}

#[test]
fn identifier_bound() {
    let at_max = vec![b'a'; MAX_IDENT_LEN];
    assert!(CompactIdentifier::new(&at_max).is_ok());
    let over = vec![b'a'; MAX_IDENT_LEN + 1];
    assert_eq!(CompactIdentifier::new(&over).unwrap_err(), IdentError::TooLong);
    assert_eq!(CompactIdentifier::new(&b"a-b".to_vec()).unwrap_err(), IdentError::InvalidChar);
    let long_field = "abcdefghijk";
    assert_eq!(long_field.len(), MAX_IDENT_LEN + 1);
    let errs = derive_type_struct(&b"S".to_vec(), &vec![field(long_field, path("u32"), true)]).unwrap_err();
    assert_eq!(
        errs,
        vec![GenerationError { kind: ErrorKind::IdentifierTooLong, origin: ErrorOrigin::Member(0) }]
    );
    assert!(derive_type_struct(&b"S".to_vec(), &vec![field("abcdefghij", path("u32"), true)]).is_ok());
}

#[test]
fn identifier_codes() {
    assert_eq!(code("x"), 61);
    assert_eq!(code("_"), 1);
    assert_eq!(code("A0"), 12 * 64 + 2);
    assert_eq!(code(""), 0);
}

#[test]
fn point_encodes_and_decodes() {
    let codec = derive_type_struct(&b"Point".to_vec(), &point_fields()).unwrap();
    let map = codec.encode(&vec![Val::I32(3), Val::I32(4)]);
    assert_eq!(map.keys(), vec![code("x"), code("y")]);
    assert_eq!(map.get(code("x")), Some(Val::I32(3)));
    assert_eq!(map.get(code("y")), Some(Val::I32(4)));
    assert_eq!(codec.decode(&map).unwrap(), vec![Val::I32(3), Val::I32(4)]);

    let mut missing = SymbolMap::new();
    missing.put(code("x"), Val::I32(3));
    assert_eq!(codec.decode(&missing), Err(ConversionError::MissingField));
}

#[test]
fn wrong_shape_fails_decode() {
    let codec = derive_type_struct(&b"Point".to_vec(), &point_fields()).unwrap();
    let mut map = SymbolMap::new();
    map.put(code("x"), Val::U32(3));
    map.put(code("y"), Val::I32(4));
    assert_eq!(codec.decode(&map), Err(ConversionError::WrongShape));
}

#[test]
fn field_order_follows_declaration() {
    let reordered = vec![field("y", path("i32"), true), field("x", path("i32"), true)];
    let codec = derive_type_struct(&b"Point".to_vec(), &reordered).unwrap();
    let map = codec.encode(&vec![Val::I32(4), Val::I32(3)]);
    assert_eq!(map.keys(), vec![code("y"), code("x")]);
    assert_eq!(map.get(code("x")), Some(Val::I32(3)));
    assert_eq!(codec.decode(&map).unwrap(), vec![Val::I32(4), Val::I32(3)]);
}

#[test]
fn hidden_fields_are_left_out_and_decode_to_default() {
    let fields = vec![
        field("x", path("i32"), true),
        field("secret", path("u64"), false),
        field("y", path("i32"), true),
    ];
    let codec = derive_type_struct(&b"Point".to_vec(), &fields).unwrap();
    assert_eq!(codec.members[1], Member::Hidden(Val::U64(0)));
    let map = codec.encode(&vec![Val::I32(3), Val::U64(99), Val::I32(4)]);
    assert_eq!(map.keys(), vec![code("x"), code("y")]);
    assert!(!map.has(code("secret")));
    assert_eq!(codec.decode(&map).unwrap(), vec![Val::I32(3), Val::U64(0), Val::I32(4)]);

    let plain = derive_type_struct(&b"Point".to_vec(), &point_fields()).unwrap();
    assert_eq!(codec.schema().unwrap(), plain.schema().unwrap());
}

#[test]
fn hidden_field_errors_are_ignored() {
    let fields = vec![field("x", path("i32"), true), field("far_too_long_name", generic("Foo", vec![path("u32")]), false)];
    let codec = derive_type_struct(&b"S".to_vec(), &fields).unwrap();
    assert_eq!(codec.members[1], Member::Hidden(Val::Void));
}

#[test]
fn positional_fields_are_named_by_visible_index() {
    let fields = vec![
        FieldDef { name: None, ty: path("u32"), visible: true },
        FieldDef { name: None, ty: path("u32"), visible: false },
        FieldDef { name: None, ty: path("bool"), visible: true },
    ];
    let codec = derive_type_struct(&b"Pair".to_vec(), &fields).unwrap();
    match (&codec.members[0], &codec.members[2]) {
        (Member::Visible(a), Member::Visible(b)) => {
            assert_eq!(a.name.name(), &b"0".to_vec());
            assert_eq!(b.name.name(), &b"1".to_vec());
        }
        other => panic!("unexpected {:?}", other),
    }
}

#[test]
fn struct_errors_are_collected() {
    let fields = vec![
        field("ok", path("u32"), true),
        field("bad-name", generic("Option", vec![]), true),
        field("twelve_chars", path("u32"), true),
    ];
    let errs = derive_type_struct(&b"Thing!".to_vec(), &fields).unwrap_err();
    assert_eq!(
        errs,
        vec![
            GenerationError { kind: ErrorKind::InvalidIdentifier, origin: ErrorOrigin::TypeName },
            GenerationError { kind: ErrorKind::InvalidIdentifier, origin: ErrorOrigin::Member(1) },
            GenerationError { kind: ErrorKind::UnsupportedType, origin: ErrorOrigin::Member(1) },
            GenerationError { kind: ErrorKind::IdentifierTooLong, origin: ErrorOrigin::Member(2) },
        ]
    );
}

#[test]
fn shape_encodes_and_decodes() {
    let codec = derive_type_enum(&b"Shape".to_vec(), &shape_cases()).unwrap();
    assert_eq!(codec.encode(EnumValue { case: 0, payload: Val::I32(5) }), (code("Circle"), Val::I32(5)));
    assert_eq!(codec.encode(EnumValue { case: 1, payload: Val::I32(7) }), (code("Empty"), Val::Void));
    assert_eq!(codec.decode(code("Circle"), Val::I32(5)), Ok(EnumValue { case: 0, payload: Val::I32(5) }));
    assert_eq!(codec.decode(code("Empty"), Val::Void), Ok(EnumValue { case: 1, payload: Val::Void }));
    assert_eq!(codec.decode(code("Triangle"), Val::Void), Err(ConversionError::UnknownDiscriminant));
    assert_eq!(codec.decode(code("Circle"), Val::Bool(true)), Err(ConversionError::WrongShape));
}

#[test]
fn enum_first_declared_case_wins() {
    let cases = vec![case("A", vec![path("u32")]), case("A", vec![])];
    let codec = derive_type_enum(&b"Dup".to_vec(), &cases).unwrap();
    assert_eq!(codec.decode(code("A"), Val::U32(1)), Ok(EnumValue { case: 0, payload: Val::U32(1) }));
    let (d, v) = codec.encode(EnumValue { case: 1, payload: Val::Void });
    assert_eq!(codec.decode(d, v), Err(ConversionError::WrongShape));
}

#[test]
fn multi_payload_case_is_unsupported() {
    let cases = vec![case("Ok", vec![]), case("Pair", vec![path("u32"), path("u32")]), case("Bad", vec![path("f32")])];
    let errs = derive_type_enum(&b"E".to_vec(), &cases).unwrap_err();
    assert_eq!(
        errs,
        vec![GenerationError { kind: ErrorKind::UnsupportedVariantShape, origin: ErrorOrigin::Member(1) }]
    );
    let too_long = vec![case("a_very_long_case", vec![generic("Vec", vec![])])];
    let errs = derive_type_enum(&b"E".to_vec(), &too_long).unwrap_err();
    assert_eq!(
        errs,
        vec![
            GenerationError { kind: ErrorKind::IdentifierTooLong, origin: ErrorOrigin::Member(0) },
            GenerationError { kind: ErrorKind::UnsupportedType, origin: ErrorOrigin::Member(0) },
        ]
    );
}

#[test]
fn round_trip_over_shapes() {
    let fields = vec![
        field("a", path("u32"), true),
        field("b", path("bool"), true),
        field("c", path("Symbol"), true),
        field("d", generic("Option", vec![path("i64")]), true),
        field("e", generic("Option", vec![path("i64")]), true),
        field("f", generic("Vec", vec![path("u32")]), true),
        field("g", TypeExpr::Tuple(vec![path("u32"), path("u32")]), true),
        field("h", path("Binary"), true),
        field("i", path("Status"), true),
        field("j", path("Bitset"), true),
        field("k", path("u64"), true),
        field("l", path("Account"), true),
    ];
    let codec = derive_type_struct(&b"All".to_vec(), &fields).unwrap();
    let values = vec![
        Val::U32(1),
        Val::Bool(true),
        Val::Symbol(code("sym")),
        Val::Void,
        Val::I64(-7),
        Val::Object(3),
        Val::Object(4),
        Val::Object(5),
        Val::Status(9),
        Val::Bitset(6),
        Val::U64(u64::MAX),
        Val::Object(8),
    ];
    let map = codec.encode(&values);
    assert_eq!(map.len(), 12);
    assert_eq!(codec.decode(&map).unwrap(), values);
}

#[test]
fn schema_bytes_of_point() {
    let codec = derive_type_struct(&b"Point".to_vec(), &point_fields()).unwrap();
    let bytes = codec.schema().unwrap();
    let expected: Vec<u8> = vec![
        0, 0, 0, 0, // version
        0, 0, 0, 0, // struct
        0, 0, 0, 5, b'P', b'o', b'i', b'n', b't', 0, 0, 0, // name
        0, 0, 0, 2, // two fields
        0, 0, 0, 1, b'x', 0, 0, 0, 0, 0, 0, 2, // x: i32
        0, 0, 0, 1, b'y', 0, 0, 0, 0, 0, 0, 2, // y: i32
    ];
    assert_eq!(bytes, expected);
    assert_eq!(codec.schema().unwrap(), bytes);
}

#[test]
fn schema_bytes_of_shape() {
    let codec = derive_type_enum(&b"Shape".to_vec(), &shape_cases()).unwrap();
    let bytes = codec.schema().unwrap();
    let expected: Vec<u8> = vec![
        0, 0, 0, 0, // version
        0, 0, 0, 1, // union
        0, 0, 0, 5, b'S', b'h', b'a', b'p', b'e', 0, 0, 0, // name
        0, 0, 0, 2, // two cases
        0, 0, 0, 6, b'C', b'i', b'r', b'c', b'l', b'e', 0, 0, 0, 0, 0, 1, 0, 0, 0, 2, // Circle(i32)
        0, 0, 0, 5, b'E', b'm', b'p', b't', b'y', 0, 0, 0, 0, 0, 0, 0, // Empty
    ];
    assert_eq!(bytes, expected);
    assert_eq!(codec.schema().unwrap(), bytes);
}

#[test]
fn schema_bytes_of_nested_types() {
    let fields = vec![
        field("m", generic("Map", vec![path("Symbol"), generic("Vec", vec![generic("Option", vec![path("u64")])])]), true),
        field("t", TypeExpr::Tuple(vec![path("Acct"), generic("Set", vec![path("u32")])]), true),
    ];
    let codec = derive_type_struct(&b"N".to_vec(), &fields).unwrap();
    let bytes = codec.schema().unwrap();
    let expected: Vec<u8> = vec![
        0, 0, 0, 0, 0, 0, 0, 0, 0, 0, 0, 1, b'N', 0, 0, 0, 0, 0, 0, 2,
        0, 0, 0, 1, b'm', 0, 0, 0, // m
        0, 0, 0x03, 0xeb, 0, 0, 0, 6, 0, 0, 0x03, 0xe9, 0, 0, 0x03, 0xe8, 0, 0, 0, 3,
        0, 0, 0, 1, b't', 0, 0, 0, // t
        0, 0, 0x03, 0xec, 0, 0, 0, 2, 0, 0, 0x07, 0xd0, 0, 0, 0, 4, b'A', b'c', b'c', b't',
        0, 0, 0x03, 0xea, 0, 0, 0, 1,
    ];
    assert_eq!(bytes, expected);
}

#[test]
fn symbol_map_operations() {
    let mut m = SymbolMap::new();
    assert_eq!(m.len(), 0);
    assert!(!m.has(1));
    assert_eq!(m.get(1), None);
    m.put(5, Val::U32(50));
    m.put(2, Val::Bool(true));
    m.put(9, Val::Void);
    assert_eq!(m.keys(), vec![5, 2, 9]);
    m.put(2, Val::Bool(false));
    assert_eq!(m.keys(), vec![5, 2, 9]);
    assert_eq!(m.get(2), Some(Val::Bool(false)));
    assert_eq!(m.len(), 3);
    m.del(5);
    assert_eq!(m.keys(), vec![2, 9]);
    assert!(!m.has(5));
    m.del(7);
    assert_eq!(m.len(), 2);
}

#[test]
fn bignum_predicates_and_bits() {
    assert!(BigNum::new(0).is_zero());
    assert!(!BigNum::new(-3).is_zero());
    assert!(BigNum::new(-3).is_negative());
    assert!(!BigNum::new(0).is_negative());
    assert_eq!(BigNum::new(-3).magnitude(), 3);
    assert_eq!(BigNum::new(0).bits(), 0);
    assert_eq!(BigNum::new(1).bits(), 1);
    assert_eq!(BigNum::new(255).bits(), 8);
    assert_eq!(BigNum::new(-256).bits(), 9);
    assert_eq!(BigNum::new(i128::MIN).bits(), 128);
    assert_eq!(BigNum::from_u128(u128::MAX).bits(), 128);
}

#[test]
fn bignum_sqrt() {
    assert_eq!(BigNum::new(0).sqrt().magnitude(), 0);
    assert_eq!(BigNum::new(15).sqrt().magnitude(), 3);
    assert_eq!(BigNum::new(16).sqrt().magnitude(), 4);
    assert_eq!(BigNum::new(i128::MAX).sqrt().magnitude(), 13043817825332782212);
    assert_eq!(BigNum::from_u128(u128::MAX).sqrt().magnitude(), u64::MAX as u128);
}

#[test]
fn bignum_gcd_and_lcm() {
    assert_eq!(BigNum::new(12).gcd(BigNum::new(-18)), BigNum::new(6));
    assert_eq!(BigNum::new(0).gcd(BigNum::new(7)), BigNum::new(7));
    assert_eq!(BigNum::new(0).gcd(BigNum::new(0)), BigNum::new(0));
    assert_eq!(BigNum::new(4).lcm(BigNum::new(6)), BigNum::new(12));
    assert_eq!(BigNum::new(-4).lcm(BigNum::new(0)), BigNum::new(0));
}

#[test]
fn bignum_pow_and_pow_mod() {
    assert_eq!(BigNum::new(-2).pow(3), BigNum::new(-8));
    assert_eq!(BigNum::new(-2).pow(4), BigNum::new(16));
    assert_eq!(BigNum::new(7).pow(0), BigNum::new(1));
    assert_eq!(BigNum::new(2).pow(127).magnitude(), 1u128 << 127);
    assert_eq!(BigNum::new(3).pow_mod(BigNum::new(4), BigNum::new(5)), BigNum::new(1));
    assert_eq!(BigNum::new(-3).pow_mod(BigNum::new(3), BigNum::new(5)), BigNum::new(3));
    assert_eq!(BigNum::new(5).pow_mod(BigNum::new(0), BigNum::new(1)), BigNum::new(0));
    let m = BigNum::from_u128(1u128 << 64);
    assert_eq!(BigNum::new(3).pow_mod(BigNum::new(64), m).magnitude(), 3u128.wrapping_pow(64) % (1u128 << 64));
}

#[test]
fn artifact_name_is_upper_case_type_name() {
    let id = CompactIdentifier::new(&b"Point_2d".to_vec()).unwrap();
    assert_eq!(contract_schema::schema::artifact_name(&id), b"__SCHEMA_POINT_2D".to_vec());
}
