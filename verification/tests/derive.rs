use yew_router::derive::{
    build_matcher_from_tokens, build_serializer_for_enum, build_serializer_for_item,
    build_struct_from_captures, field_from_capture, field_names, unnamed_field_index_item,
    write_for_token, writers_for_tokens, FieldNamingScheme, FieldType, FieldWriter, Fields,
    Flatten, ItemSerializer, StructFromCaptures, SwitchItem, WriterError,
};
use yew_router::optimizer::{parse_and_optimize, OptimizedToken};
use yew_router::parser::token::CaptureVariant;
use yew_router::switch::Permissive;

#[test]
fn literal_is_written_as_it_is() {
    let token = OptimizedToken::Match("/a".to_string());
    for field in [FieldType::Named, FieldType::Unit, FieldType::Unnamed { index: 3 }] {
        assert_eq!(write_for_token(&token, field), Ok(FieldWriter::Literal("/a".to_string())));
    }
}

#[test]
fn named_capture_is_written_from_its_field() {
    for capture in [
        CaptureVariant::Named("x".to_string()),
        CaptureVariant::ManyNamed("x".to_string()),
        CaptureVariant::NumberedNamed { sections: 2, name: "x".to_string() },
    ] {
        let token = OptimizedToken::Capture(capture);
        assert_eq!(
            write_for_token(&token, FieldType::Named),
            Ok(FieldWriter::Named("x".to_string()))
        );
        assert_eq!(
            write_for_token(&token, FieldType::Unit),
            Ok(FieldWriter::Named("x".to_string()))
        );
        assert_eq!(
            write_for_token(&token, FieldType::Unnamed { index: 4 }),
            Ok(FieldWriter::Indexed(4))
        );
    }
}

#[test]
fn unnamed_capture_has_no_field_among_named() {
    for capture in [
        CaptureVariant::Unnamed,
        CaptureVariant::ManyUnnamed,
        CaptureVariant::NumberedUnnamed { sections: 2 },
    ] {
        let token = OptimizedToken::Capture(capture);
        assert_eq!(write_for_token(&token, FieldType::Named), Err(WriterError::UnnamedCapture));
        assert_eq!(write_for_token(&token, FieldType::Unit), Err(WriterError::UnnamedCapture));
        assert_eq!(
            write_for_token(&token, FieldType::Unnamed { index: 0 }),
            Ok(FieldWriter::Indexed(0))
        );
    }
}

#[test]
fn optional_group_has_no_writer() {
    let token = OptimizedToken::Optional(vec![OptimizedToken::Match("/a".to_string())]);
    assert_eq!(write_for_token(&token, FieldType::Named), Err(WriterError::OptionalGroup));
}

#[test]
fn numbered_fields_are_counted_by_captures() {
    let tokens = parse_and_optimize("/a/{x}/b/{}/{*:z}").expect("should parse");
    assert_eq!(
        writers_for_tokens(&tokens, FieldNamingScheme::Unnamed),
        Ok(vec![
            FieldWriter::Literal("/a/".to_string()),
            FieldWriter::Indexed(0),
            FieldWriter::Literal("/b/".to_string()),
            FieldWriter::Indexed(1),
            FieldWriter::Literal("/".to_string()),
            FieldWriter::Indexed(2),
        ])
    );
    assert_eq!(
        writers_for_tokens(&tokens, FieldNamingScheme::Named),
        Err(WriterError::UnnamedCapture)
    );
}

#[test]
fn field_names_are_bound() {
    assert_eq!(unnamed_field_index_item(0), "__field_0");
    assert_eq!(unnamed_field_index_item(12), "__field_12");
    assert_eq!(unnamed_field_index_item(1000), "__field_1000");
    assert_eq!(
        field_names(&Fields::Unnamed(3)),
        vec!["__field_0".to_string(), "__field_1".to_string(), "__field_2".to_string()]
    );
    assert_eq!(
        field_names(&Fields::Named(vec!["a".to_string(), "b".to_string()])),
        vec!["a".to_string(), "b".to_string()]
    );
    assert_eq!(field_names(&Fields::Unit), Vec::<String>::new());
    assert_eq!(Fields::Unnamed(3).naming_scheme(), FieldNamingScheme::Unnamed);
    assert_eq!(Fields::Named(Vec::new()).naming_scheme(), FieldNamingScheme::Named);
    assert_eq!(Fields::Unit.naming_scheme(), FieldNamingScheme::Unit);
}

fn item(pattern: &str, ident: &str, fields: Fields) -> SwitchItem {
    SwitchItem {
        matcher: parse_and_optimize(pattern).expect("should parse"),
        ident: ident.to_string(),
        fields,
    }
}

#[test]
fn serializers_follow_the_variants() {
    let items = vec![
        item("/test/route", "TestRoute", Fields::Unit),
        item("/capture/string/{path}", "CaptureString", Fields::Named(vec!["path".to_string()])),
        item("/capture/unnamed/{doot}", "CaptureUnnamed", Fields::Unnamed(1)),
    ];
    assert_eq!(
        build_serializer_for_enum(&items),
        Ok(vec![
            ItemSerializer {
                ident: "TestRoute".to_string(),
                field_names: Vec::new(),
                writers: vec![FieldWriter::Literal("/test/route".to_string())],
            },
            ItemSerializer {
                ident: "CaptureString".to_string(),
                field_names: vec!["path".to_string()],
                writers: vec![
                    FieldWriter::Literal("/capture/string/".to_string()),
                    FieldWriter::Named("path".to_string()),
                ],
            },
            ItemSerializer {
                ident: "CaptureUnnamed".to_string(),
                field_names: vec!["__field_0".to_string()],
                writers: vec![
                    FieldWriter::Literal("/capture/unnamed/".to_string()),
                    FieldWriter::Indexed(0),
                ],
            },
        ])
    );
    assert_eq!(
        build_serializer_for_item(&items[0]).map(|s| s.writers.len()),
        Ok(1)
    );
}

#[test]
fn first_variant_without_writer_fails_the_enum() {
    let items = vec![
        item("/a", "A", Fields::Unit),
        item("/b[/c]", "B", Fields::Unit),
        item("/c/{}", "C", Fields::Named(Vec::new())),
    ];
    assert_eq!(build_serializer_for_enum(&items), Err(WriterError::OptionalGroup));
    assert_eq!(build_serializer_for_enum(&Vec::new()), Ok(Vec::new()));
}

#[test]
fn struct_takes_its_fields_from_captures() {
    assert_eq!(
        build_struct_from_captures(&Fields::Named(vec!["a".to_string(), "b".to_string()])),
        StructFromCaptures::Named { keys: vec!["a".to_string(), "b".to_string()] }
    );
    assert_eq!(
        build_struct_from_captures(&Fields::Unnamed(2)),
        StructFromCaptures::Unnamed { count: 2 }
    );
    assert_eq!(build_struct_from_captures(&Fields::Unit), StructFromCaptures::Unit);
}

#[test]
fn field_is_read_from_its_capture() {
    assert_eq!(
        field_from_capture::<usize, u8>(Some("22".to_string()), Some(1)),
        (Some(22), Some(1))
    );
    assert_eq!(field_from_capture::<usize, u8>(Some("x".to_string()), Some(1)), (None, Some(1)));
    assert_eq!(field_from_capture::<usize, u8>(None, Some(1)), (None, Some(1)));
    assert_eq!(
        field_from_capture::<Permissive<usize>, u8>(None, Some(1)),
        (Some(Permissive(None)), Some(1))
    );
    assert_eq!(
        field_from_capture::<Permissive<usize>, u8>(Some("x".to_string()), Some(1)),
        (Some(Permissive(None)), None)
    );
}

#[test]
fn options_are_flattened() {
    assert_eq!(Some(Some(1)).flatten_stable(), Some(1));
    assert_eq!(Some(None::<u8>).flatten_stable(), None);
    assert_eq!(None::<Option<u8>>.flatten_stable(), None);
}

#[test]
fn derived_matcher_ignores_case() {
    let tokens = parse_and_optimize("/Hello/{x}").expect("should parse");
    let matcher = build_matcher_from_tokens(tokens.clone());
    assert_eq!(matcher.tokens, tokens);
    assert!(matcher.settings.case_insensitive);
    let (_, map) = matcher.capture_route_into_map("/hello/1").expect("should match");
    assert_eq!(map.get("x"), Some(&"1".to_string()));
}
