use c_ast::{
    CConstant, CExpression, CInitializer, ExtractError, MyExpression, MyStruct, MyStructType,
    MyValue, MyVisitor, TraversalEvent, fill, quoted_payload, transform,
};

fn s(t: &str) -> String {
    t.to_string()
}

fn int_expr(token: &str) -> CExpression {
    CExpression::Constant(CConstant::Integer(s(token)))
}

fn float_expr(token: &str) -> CExpression {
    CExpression::Constant(CConstant::Float(s(token)))
}

fn dec(digits: &str) -> CInitializer {
    CInitializer::Expression(int_expr(digits))
}

fn tag(t: &str) -> TraversalEvent {
    TraversalEvent::StructType(Some(s(t)))
}

fn field(name: &str) -> TraversalEvent {
    TraversalEvent::StructField(vec![Some(s(name))])
}

fn decl(name: &str, init: CInitializer) -> TraversalEvent {
    TraversalEvent::InitDeclarator { name: Some(s(name)), initializer: Some(init) }
}

fn struct_s_abc() -> Vec<TraversalEvent> {
    vec![tag("S"), field("a"), field("b"), field("c")]
}

fn ival(t: &str) -> MyExpression {
    MyExpression::Integer(s(t))
}

fn bindings(v: &MyVisitor, name: &str) -> Vec<(String, MyExpression)> {
    for (k, val) in v.values() {
        if k.1 == name {
            if let MyValue::Struct(m) = val {
                return m.values.clone();
            }
        }
    }
    panic!("no struct instance {}", name)
}

fn run(events: &Vec<TraversalEvent>) -> (MyVisitor, Result<(), ExtractError>) {
    let mut v = MyVisitor::new();
    let r = v.traverse(events);
    (v, r)
}

#[test]
fn struct_fields_in_declaration_order() {
    let (v, r) = run(&struct_s_abc());
    assert_eq!(r, Ok(()));
    assert_eq!(
        v.struct_types(),
        &vec![MyStructType { name: s("S"), fields: vec![s("a"), s("b"), s("c")] }]
    );
}

#[test]
fn fewer_initializers_than_fields() {
    let mut evs = struct_s_abc();
    evs.push(decl("x", CInitializer::List(vec![dec("1"), dec("2")])));
    let (v, r) = run(&evs);
    assert_eq!(r, Ok(()));
    assert_eq!(bindings(&v, "x"), vec![(s("a"), ival("1")), (s("b"), ival("2"))]);
}

#[test]
fn nested_list_binds_to_one_field() {
    let mut evs = struct_s_abc();
    let nested = CInitializer::List(vec![dec("1"), dec("2")]);
    evs.push(decl("x", CInitializer::List(vec![nested, dec("3")])));
    let (v, r) = run(&evs);
    assert_eq!(r, Ok(()));
    assert_eq!(
        bindings(&v, "x"),
        vec![(s("a"), ival("1")), (s("a"), ival("2")), (s("b"), ival("3"))]
    );
    assert_eq!(
        v.values()[0].1,
        MyValue::Struct(MyStruct {
            typ: s("S"),
            name: s("x"),
            values: vec![(s("a"), ival("1")), (s("a"), ival("2")), (s("b"), ival("3"))],
        })
    );
}

#[test]
fn excess_initializers_are_dropped() {
    let evs = vec![
        tag("P"),
        field("x"),
        decl("p", CInitializer::List(vec![dec("1"), dec("2"), dec("3")])),
    ];
    let (v, _) = run(&evs);
    assert_eq!(bindings(&v, "p"), vec![(s("x"), ival("1"))]);
}

#[test]
fn scalar_first_write_wins() {
    let evs = vec![decl("n", dec("5")), decl("n", dec("7"))];
    let (v, r) = run(&evs);
    assert_eq!(r, Ok(()));
    assert_eq!(v.values().len(), 1);
    assert_eq!((v.values()[0].0).0, None);
    assert_eq!(v.values()[0].1, MyValue::Scalar { name: s("n"), value: ival("5") });
}

#[test]
fn simplify_constants_and_literals() {
    assert_eq!(transform(&int_expr("0x1A")), ival("0x1A"));
    assert_eq!(transform(&float_expr("3.14f")), MyExpression::Float(s("3.14f")));
    let c = CExpression::Constant(CConstant::Character(s("'x'")));
    assert_eq!(transform(&c), MyExpression::String(s("x")));
    let lit = CExpression::StringLiteral(vec![s("\"hi\"")]);
    assert_eq!(transform(&lit), MyExpression::StringLiteral(vec![s("hi")]));
    let call = CExpression::Other(s("Call(f, [])"));
    match transform(&call) {
        MyExpression::Other(t) => assert!(!t.is_empty()),
        other => panic!("unexpected {:?}", other),
    }
}

#[test]
fn numeric_tokens_kept_as_written() {
    assert_eq!(transform(&int_expr("16")), ival("16"));
    assert_eq!(transform(&int_expr("0x10")), ival("0x10"));
    assert_eq!(transform(&int_expr("0X1A")), ival("0X1A"));
    assert_eq!(transform(&int_expr("10UL")), ival("10UL"));
    assert_eq!(transform(&int_expr("10lu")), ival("10lu"));
    assert_eq!(transform(&int_expr("017")), ival("017"));
    assert_eq!(transform(&float_expr("1.0F")), MyExpression::Float(s("1.0F")));
    assert_eq!(transform(&float_expr("1.0df")), MyExpression::Float(s("1.0df")));
    assert_eq!(transform(&float_expr("0x1p3")), MyExpression::Float(s("0x1p3")));
}

#[test]
fn character_payload_after_prefix() {
    let c = CExpression::Constant(CConstant::Character(s("L'y'")));
    assert_eq!(transform(&c), MyExpression::String(s("y")));
    let c = CExpression::Constant(CConstant::Character(s("'\\n'")));
    assert_eq!(transform(&c), MyExpression::String(s("\\n")));
    let c = CExpression::Constant(CConstant::Character(s("'\\''")));
    assert_eq!(transform(&c), MyExpression::String(s("\\'")));
}

#[test]
fn string_literal_parts_kept_apart() {
    let lit = CExpression::StringLiteral(vec![s("\"a\""), s("\"b\"")]);
    assert_eq!(transform(&lit), MyExpression::StringLiteral(vec![s("a"), s("b")]));
    let lit = CExpression::StringLiteral(vec![s("u8\"ab\""), s("L\"\"")]);
    assert_eq!(transform(&lit), MyExpression::StringLiteral(vec![s("ab"), s("")]));
}

#[test]
fn payload_of_unquoted_text_is_whole() {
    assert_eq!(quoted_payload(&s("x")), s("x"));
    assert_eq!(quoted_payload(&s("'")), s("'"));
    assert_eq!(quoted_payload(&s("")), s(""));
}

#[test]
fn field_without_tag_warns_and_changes_nothing() {
    let mut v = MyVisitor::new();
    let warn = v.visit_struct_field(&vec![Some(s("a"))]);
    assert!(warn);
    assert!(v.struct_types().is_empty());
    assert!(v.values().is_empty());
    assert_eq!(v.current_struct(), &None);
}

#[test]
fn field_under_tag_does_not_warn() {
    let mut v = MyVisitor::new();
    v.visit_struct_type(Some(s("S")));
    assert!(!v.visit_struct_field(&vec![Some(s("a")), None, Some(s("b"))]));
    assert_eq!(v.struct_types()[0].fields, vec![s("a"), s("b")]);
}

#[test]
fn traversal_is_deterministic() {
    let mut evs = struct_s_abc();
    evs.push(decl("x", CInitializer::List(vec![dec("1"), dec("2")])));
    evs.push(decl("y", dec("9")));
    let (v1, r1) = run(&evs);
    let (v2, r2) = run(&evs);
    assert_eq!(r1, r2);
    assert_eq!(v1.struct_types(), v2.struct_types());
    assert_eq!(v1.values(), v2.values());
}

#[test]
fn non_identifier_declarator_is_an_error() {
    let mut v = MyVisitor::new();
    let r = v.visit_init_declarator(&None, &Some(dec("1")));
    assert_eq!(r, Err(ExtractError::UnexpectedDeclarator));
    assert!(v.values().is_empty());
    let r = v.visit_init_declarator(&None, &None);
    assert_eq!(r, Err(ExtractError::UnexpectedDeclarator));
}

#[test]
fn unknown_struct_type_is_an_error() {
    let evs = vec![tag("T"), decl("t", CInitializer::List(vec![dec("1")])), decl("u", dec("2"))];
    let (v, r) = run(&evs);
    assert_eq!(r, Err(ExtractError::UnknownStructType(s("T"))));
    assert!(v.values().is_empty());
}

#[test]
fn list_without_tag_is_ignored() {
    let evs = vec![decl("x", CInitializer::List(vec![dec("1")]))];
    let (v, r) = run(&evs);
    assert_eq!(r, Ok(()));
    assert!(v.values().is_empty());
}

#[test]
fn declarator_without_initializer_is_ignored() {
    let evs = vec![TraversalEvent::InitDeclarator { name: Some(s("z")), initializer: None }];
    let (v, r) = run(&evs);
    assert_eq!(r, Ok(()));
    assert!(v.values().is_empty());
}

#[test]
fn revisited_struct_tag_appends_fields_again() {
    let mut evs = struct_s_abc();
    evs.extend(struct_s_abc());
    let (v, _) = run(&evs);
    assert_eq!(v.struct_types().len(), 1);
    assert_eq!(v.struct_types()[0].fields, vec![s("a"), s("b"), s("c"), s("a"), s("b"), s("c")]);
}

#[test]
fn revisited_struct_instance_appends_bindings() {
    let mut evs = struct_s_abc();
    evs.push(decl("x", CInitializer::List(vec![dec("1")])));
    evs.push(decl("x", CInitializer::List(vec![dec("2")])));
    let (v, _) = run(&evs);
    assert_eq!(v.values().len(), 1);
    assert_eq!(bindings(&v, "x"), vec![(s("a"), ival("1")), (s("a"), ival("2"))]);
}

#[test]
fn scalar_key_blocks_later_list() {
    let mut evs = struct_s_abc();
    evs.push(decl("x", dec("4")));
    evs.push(decl("x", CInitializer::List(vec![dec("1")])));
    let (v, r) = run(&evs);
    assert_eq!(r, Ok(()));
    assert_eq!(v.values().len(), 1);
    assert_eq!(v.values()[0].1, MyValue::Scalar { name: s("x"), value: ival("4") });
}

#[test]
fn tag_persists_after_untagged_struct() {
    let evs = vec![
        tag("S"),
        TraversalEvent::StructType(None),
        field("a"),
        decl("k", dec("3")),
    ];
    let (v, _) = run(&evs);
    assert_eq!(v.current_struct(), &Some(s("S")));
    assert_eq!(v.struct_types()[0].fields, vec![s("a")]);
    assert_eq!((v.values()[0].0).0, Some(s("S")));
}

#[test]
fn fill_flattens_nested_lists() {
    let mut acc = vec![(s("z"), ival("0"))];
    let ini = CInitializer::List(vec![
        CInitializer::List(vec![dec("1"), CInitializer::List(vec![dec("2")])]),
        dec("3"),
    ]);
    fill(&mut acc, &s("f"), &ini);
    assert_eq!(
        acc,
        vec![(s("z"), ival("0")), (s("f"), ival("1")), (s("f"), ival("2")), (s("f"), ival("3"))]
    );
}

#[test]
fn constructors_start_empty() {
    let t = MyStructType::new(&s("Q"));
    assert_eq!(t, MyStructType { name: s("Q"), fields: vec![] });
    assert_eq!(
        MyValue::new_struct(&s("Q"), &s("q")),
        MyValue::Struct(MyStruct { typ: s("Q"), name: s("q"), values: vec![] })
    );
    assert_eq!(
        MyValue::new_scalar(&s("n"), ival("1")),
        MyValue::Scalar { name: s("n"), value: ival("1") }
    );
}
