use vinyl::codegen::layout::{
    align_of, align_up, enum_layout, size_of, struct_layout, tuple_field_offset, Primitive, Type,
    TypeDef,
};

fn prim(p: Primitive) -> Type {
    Type::Primitive(p)
}

fn no_types() -> Vec<(String, TypeDef)> {
    Vec::new()
}

#[test]
fn align_up_rounds_to_multiples() {
    assert_eq!(align_up(5, 4), 8);
    assert_eq!(align_up(8, 4), 8);
    assert_eq!(align_up(0, 8), 0);
    assert_eq!(align_up(9, 16), 16);
}

#[test]
fn align_up_of_zero_or_one_keeps_offset() {
    assert_eq!(align_up(7, 1), 7);
    assert_eq!(align_up(7, 0), 7);
}

#[test]
fn primitive_sizes_and_alignments() {
    let types = no_types();
    assert_eq!(size_of(&prim(Primitive::Bool), &types, 8), 1);
    assert_eq!(size_of(&prim(Primitive::Int16), &types, 8), 2);
    assert_eq!(size_of(&prim(Primitive::Char), &types, 8), 4);
    assert_eq!(size_of(&prim(Primitive::Float64), &types, 8), 8);
    assert_eq!(size_of(&prim(Primitive::UInt128), &types, 8), 16);
    assert_eq!(size_of(&prim(Primitive::Str), &types, 8), 8);
    assert_eq!(size_of(&prim(Primitive::USize), &types, 4), 4);
    assert_eq!(size_of(&prim(Primitive::Unit), &types, 8), 0);
    assert_eq!(align_of(&prim(Primitive::Unit), &types, 8), 1);
    assert_eq!(align_of(&prim(Primitive::Int64), &types, 8), 8);
}

#[test]
fn tuple_is_padded_to_its_alignment() {
    let types = no_types();
    let t = Type::Tuple(vec![prim(Primitive::Int8), prim(Primitive::Int32)]);
    assert_eq!(size_of(&t, &types, 8), 8);
    assert_eq!(align_of(&t, &types, 8), 4);
    let t = Type::Tuple(vec![prim(Primitive::Int32), prim(Primitive::Int8)]);
    assert_eq!(size_of(&t, &types, 8), 8);
}

#[test]
fn empty_tuple_has_size_zero_and_alignment_one() {
    let types = no_types();
    let t = Type::Tuple(Vec::new());
    assert_eq!(size_of(&t, &types, 8), 0);
    assert_eq!(align_of(&t, &types, 8), 1);
}

#[test]
fn pointers_generics_and_unknown_names_take_a_pointer() {
    let types = no_types();
    let r = Type::Ref(Box::new(prim(Primitive::Int8)));
    assert_eq!(size_of(&r, &types, 8), 8);
    assert_eq!(align_of(&r, &types, 4), 4);
    assert_eq!(size_of(&Type::Generic { name: "T".to_string() }, &types, 8), 8);
    assert_eq!(size_of(&Type::Var(3), &types, 8), 8);
    assert_eq!(size_of(&Type::Named("Missing".to_string()), &types, 8), 8);
}

#[test]
fn array_size_is_element_size_times_length() {
    let types = no_types();
    let a = Type::Array { element: Box::new(prim(Primitive::Int16)), size: 5 };
    assert_eq!(size_of(&a, &types, 8), 10);
    assert_eq!(align_of(&a, &types, 8), 2);
}

fn point_table() -> Vec<(String, TypeDef)> {
    vec![(
        "Point".to_string(),
        TypeDef::Struct {
            fields: vec![
                ("x".to_string(), prim(Primitive::Int32)),
                ("y".to_string(), prim(Primitive::Int32)),
            ],
            repr_c: false,
        },
    )]
}

#[test]
fn named_struct_size_comes_from_its_fields() {
    let types = point_table();
    let p = Type::Named("Point".to_string());
    assert_eq!(size_of(&p, &types, 8), 8);
    assert_eq!(align_of(&p, &types, 8), 4);
    let a = Type::Array { element: Box::new(Type::Named("Point".to_string())), size: 3 };
    assert_eq!(size_of(&a, &types, 8), 24);
}

#[test]
fn struct_fields_are_sorted_by_decreasing_alignment() {
    let types = no_types();
    let fields = vec![
        ("a".to_string(), prim(Primitive::Int8)),
        ("b".to_string(), prim(Primitive::Int64)),
        ("c".to_string(), prim(Primitive::Int16)),
    ];
    let (total, placed) = struct_layout(&fields, false, &types, 8);
    assert_eq!(total, 16);
    let names: Vec<&str> = placed.iter().map(|(n, _)| n.as_str()).collect();
    assert_eq!(names, vec!["b", "c", "a"]);
    assert_eq!(placed[0].1.offset, 0);
    assert_eq!(placed[1].1.offset, 8);
    assert_eq!(placed[2].1.offset, 10);
    assert_eq!(placed[2].1.size, 1);
}

#[test]
fn struct_fields_of_equal_alignment_keep_their_order() {
    let types = no_types();
    let fields = vec![
        ("first".to_string(), prim(Primitive::Int32)),
        ("wide".to_string(), prim(Primitive::Int64)),
        ("second".to_string(), prim(Primitive::UInt32)),
    ];
    let (total, placed) = struct_layout(&fields, false, &types, 8);
    let names: Vec<&str> = placed.iter().map(|(n, _)| n.as_str()).collect();
    assert_eq!(names, vec!["wide", "first", "second"]);
    assert_eq!(total, 16);
}

#[test]
fn repr_c_struct_keeps_declaration_order() {
    let types = no_types();
    let fields = vec![
        ("a".to_string(), prim(Primitive::Int8)),
        ("b".to_string(), prim(Primitive::Int64)),
        ("c".to_string(), prim(Primitive::Int16)),
    ];
    let (total, placed) = struct_layout(&fields, true, &types, 8);
    assert_eq!(total, 24);
    let offsets: Vec<u32> = placed.iter().map(|(_, l)| l.offset).collect();
    assert_eq!(offsets, vec![0, 8, 16]);
}

#[test]
fn empty_struct_has_size_zero() {
    let types = no_types();
    let (total, placed) = struct_layout(&[], false, &types, 8);
    assert_eq!(total, 0);
    assert!(placed.is_empty());
}

#[test]
fn enum_layout_places_payload_after_discriminant() {
    let types = no_types();
    let variants = vec![
        Vec::new(),
        vec![prim(Primitive::Int32)],
        vec![prim(Primitive::Int8), prim(Primitive::Int64)],
    ];
    assert_eq!(enum_layout(&variants, &types, 8), (24, 8, 1));
}

#[test]
fn enum_without_variants_is_one_byte() {
    let types = no_types();
    assert_eq!(enum_layout(&[], &types, 8), (1, 0, 1));
}

#[test]
fn enum_with_many_variants_takes_a_two_byte_discriminant() {
    let types = no_types();
    let variants: Vec<Vec<Type>> = (0..300).map(|_| Vec::new()).collect();
    assert_eq!(enum_layout(&variants, &types, 8), (2, 2, 2));
}

#[test]
fn named_enum_and_tuple_struct_sizes() {
    let types = vec![
        (
            "Shape".to_string(),
            TypeDef::Enum { variants: vec![vec![prim(Primitive::Int32)], Vec::new()] },
        ),
        (
            "Pair".to_string(),
            TypeDef::TupleStruct { types: vec![prim(Primitive::Int8), prim(Primitive::Int16)] },
        ),
        ("helper".to_string(), TypeDef::Other),
    ];
    assert_eq!(size_of(&Type::Named("Shape".to_string()), &types, 8), 8);
    assert_eq!(align_of(&Type::Named("Shape".to_string()), &types, 8), 4);
    assert_eq!(size_of(&Type::Named("Pair".to_string()), &types, 8), 4);
    assert_eq!(align_of(&Type::Named("Pair".to_string()), &types, 8), 2);
    assert_eq!(size_of(&Type::Named("helper".to_string()), &types, 8), 8);
}

#[test]
fn tuple_field_offsets() {
    let types = no_types();
    let elements = vec![prim(Primitive::Int8), prim(Primitive::Int32), prim(Primitive::Int16)];
    assert_eq!(tuple_field_offset(0, &elements, &types, 8), 0);
    assert_eq!(tuple_field_offset(1, &elements, &types, 8), 4);
    assert_eq!(tuple_field_offset(2, &elements, &types, 8), 8);
    assert_eq!(tuple_field_offset(7, &elements, &types, 8), 0);
    assert_eq!(tuple_field_offset(0, &[], &types, 8), 0);
}
