use varies::builder::build_table;
use varies::classify::{classify, classify_stmt, TransformError};
use varies::emit::FunctionTemplate;
use varies::expand;
use varies::stmt::{Annotation, Statement, StmtShape, Token};

fn untagged(text: &str) -> Statement {
    Statement {
        shape: StmtShape::ExprStmt,
        annotations: vec![],
        text: text.to_string(),
    }
}

fn tagged(text: &str, name: &str) -> Statement {
    Statement {
        shape: StmtShape::ExprStmt,
        annotations: vec![Annotation {
            name: "variant".to_string(),
            args: vec![Token::Ident(name.to_string())],
        }],
        text: text.to_string(),
    }
}

fn tail(text: &str) -> Statement {
    Statement {
        shape: StmtShape::TailExpr,
        annotations: vec![],
        text: text.to_string(),
    }
}

fn binding(text: &str) -> Statement {
    Statement {
        shape: StmtShape::Binding,
        annotations: vec![],
        text: text.to_string(),
    }
}

fn entry_texts(entries: &[varies::builder::VariantEntry]) -> Vec<(String, Vec<String>)> {
    entries
        .iter()
        .map(|e| {
            (
                e.name.clone(),
                e.stmts.iter().map(|s| s.text.clone()).collect(),
            )
        })
        .collect()
}

#[test]
fn scenario_mixed_tags() {
    let body = vec![
        untagged("x = 1 ;"),
        tagged("x += 1 ;", "extra"),
        tagged("print() ;", "hi"),
        untagged("y = 1 ;"),
        tail("x"),
    ];
    let cs = classify(&body).unwrap();
    let table = build_table(&cs);
    let texts = entry_texts(&table.entries);
    assert_eq!(texts.len(), 3);
    assert_eq!(texts[0].0, "default");
    assert_eq!(
        texts[0].1,
        vec!["x = 1 ;".to_string(), "y = 1 ;".to_string(), "x".to_string()]
    );
    assert_eq!(texts[1].0, "extra");
    assert_eq!(
        texts[1].1,
        vec![
            "x = 1 ;".to_string(),
            "x += 1 ;".to_string(),
            "y = 1 ;".to_string(),
            "x".to_string()
        ]
    );
    assert_eq!(texts[2].0, "hi");
    assert_eq!(
        texts[2].1,
        vec![
            "x = 1 ;".to_string(),
            "print() ;".to_string(),
            "y = 1 ;".to_string(),
            "x".to_string()
        ]
    );
}

#[test]
fn first_statement_tagged_gets_empty_baseline() {
    let body = vec![tagged("a() ;", "only"), untagged("b() ;")];
    let cs = classify(&body).unwrap();
    let table = build_table(&cs);
    let texts = entry_texts(&table.entries);
    assert_eq!(texts.len(), 2);
    assert_eq!(texts[0].0, "default");
    assert_eq!(texts[0].1, vec!["b() ;".to_string()]);
    assert_eq!(texts[1].0, "only");
    assert_eq!(texts[1].1, vec!["a() ;".to_string(), "b() ;".to_string()]);
}

#[test]
fn no_tags_yields_default_only() {
    let body = vec![binding("let x = 1 ;"), untagged("x ;"), tail("x")];
    let cs = classify(&body).unwrap();
    let table = build_table(&cs);
    let texts = entry_texts(&table.entries);
    assert_eq!(texts.len(), 1);
    assert_eq!(texts[0].0, "default");
    assert_eq!(
        texts[0].1,
        vec!["let x = 1 ;".to_string(), "x ;".to_string(), "x".to_string()]
    );
}

#[test]
fn unknown_shape_aborts() {
    let body = vec![
        untagged("a() ;"),
        Statement {
            shape: StmtShape::Unknown,
            annotations: vec![],
            text: "opaque".to_string(),
        },
    ];
    match classify(&body) {
        Err(TransformError::UnrecognizedShape { pos }) => assert_eq!(pos, 1),
        _ => panic!("expected the unrecognized-shape error"),
    }
}

#[test]
fn marker_with_two_tokens_is_malformed() {
    let body = vec![Statement {
        shape: StmtShape::ExprStmt,
        annotations: vec![Annotation {
            name: "variant".to_string(),
            args: vec![
                Token::Ident("a".to_string()),
                Token::Ident("b".to_string()),
            ],
        }],
        text: "x ;".to_string(),
    }];
    match classify(&body) {
        Err(TransformError::MalformedMarker { pos, args }) => {
            assert_eq!(pos, 0);
            assert_eq!(args.len(), 2);
        }
        _ => panic!("expected the malformed-marker error"),
    }
}

#[test]
fn marker_with_non_identifier_is_malformed() {
    let body = vec![Statement {
        shape: StmtShape::ExprStmt,
        annotations: vec![Annotation {
            name: "variant".to_string(),
            args: vec![Token::Other("1".to_string())],
        }],
        text: "x ;".to_string(),
    }];
    match classify(&body) {
        Err(TransformError::MalformedMarker { pos, .. }) => assert_eq!(pos, 0),
        _ => panic!("expected the malformed-marker error"),
    }
}

#[test]
fn reserved_name_is_rejected() {
    let body = vec![untagged("a() ;"), tagged("b() ;", "default")];
    match classify(&body) {
        Err(TransformError::ReservedVariantName { pos }) => assert_eq!(pos, 1),
        _ => panic!("expected the reserved-name error"),
    }
}

#[test]
fn cleaning_strips_only_the_marker() {
    let stmt = Statement {
        shape: StmtShape::ExprStmt,
        annotations: vec![
            Annotation {
                name: "inline".to_string(),
                args: vec![],
            },
            Annotation {
                name: "variant".to_string(),
                args: vec![Token::Ident("fast".to_string())],
            },
            Annotation {
                name: "allow".to_string(),
                args: vec![Token::Ident("unused".to_string())],
            },
        ],
        text: "work() ;".to_string(),
    };
    let c = classify_stmt(&stmt, 0).unwrap();
    assert_eq!(c.tag, Some("fast".to_string()));
    let names: Vec<String> = c.stmt.annotations.iter().map(|a| a.name.clone()).collect();
    assert_eq!(names, vec!["inline".to_string(), "allow".to_string()]);
    assert_eq!(c.stmt.text, "work() ;");
}

#[test]
fn cleaning_is_idempotent() {
    let stmt = Statement {
        shape: StmtShape::ExprStmt,
        annotations: vec![Annotation {
            name: "variant".to_string(),
            args: vec![Token::Ident("fast".to_string())],
        }],
        text: "work() ;".to_string(),
    };
    let once = classify_stmt(&stmt, 0).unwrap();
    let twice = classify_stmt(&once.stmt, 0).unwrap();
    assert_eq!(twice.tag, None);
    assert_eq!(twice.stmt.annotations.len(), once.stmt.annotations.len());
    assert_eq!(twice.stmt.text, once.stmt.text);
}

#[test]
fn expand_renders_every_variant() {
    let template = FunctionTemplate {
        name: "compute".to_string(),
        generics: String::new(),
        params: String::new(),
        ret: String::new(),
        body: vec![binding("let x = 1 ;"), tagged("x += 1 ;", "extra"), tail("x")],
    };
    let out = expand(&template).unwrap();
    let expected = "pub mod compute {\n\
         pub fn default() {\nlet x = 1 ;\nx\n}\n\
         pub fn extra() {\nlet x = 1 ;\nx += 1 ;\nx\n}\n\
         }";
    assert_eq!(out, expected);
}

#[test]
fn expand_keeps_signature_and_other_annotations() {
    let template = FunctionTemplate {
        name: "scale".to_string(),
        generics: "<T>".to_string(),
        params: "v : T , by : usize".to_string(),
        ret: "-> T ".to_string(),
        body: vec![
            Statement {
                shape: StmtShape::ExprStmt,
                annotations: vec![
                    Annotation {
                        name: "allow".to_string(),
                        args: vec![Token::Ident("unused".to_string())],
                    },
                    Annotation {
                        name: "variant".to_string(),
                        args: vec![Token::Ident("loud".to_string())],
                    },
                ],
                text: "log() ;".to_string(),
            },
            tail("v"),
        ],
    };
    let out = expand(&template).unwrap();
    let expected = "pub mod scale {\n\
         pub fn default<T>(v : T , by : usize) -> T {\nv\n}\n\
         pub fn loud<T>(v : T , by : usize) -> T {\n#[allow(unused )] log() ;\nv\n}\n\
         }";
    assert_eq!(out, expected);
}

#[test]
fn expand_reports_first_error() {
    let template = FunctionTemplate {
        name: "broken".to_string(),
        generics: String::new(),
        params: String::new(),
        ret: String::new(),
        body: vec![
            untagged("fine() ;"),
            Statement {
                shape: StmtShape::Unknown,
                annotations: vec![],
                text: "?".to_string(),
            },
            tagged("later() ;", "default"),
        ],
    };
    match expand(&template) {
        Err(TransformError::UnrecognizedShape { pos }) => assert_eq!(pos, 1),
        _ => panic!("expected the unrecognized-shape error"),
    }
}

#[test]
fn expand_is_deterministic() {
    let template = FunctionTemplate {
        name: "compute".to_string(),
        generics: String::new(),
        params: "n : u32".to_string(),
        ret: "-> u32 ".to_string(),
        body: vec![
            untagged("n += 1 ;"),
            tagged("n *= 2 ;", "double"),
            tagged("n = 0 ;", "reset"),
            tail("n"),
        ],
    };
    let first = expand(&template).unwrap();
    let second = expand(&template).unwrap();
    assert_eq!(first, second);
}

#[test]
fn untagged_statement_with_annotations_is_unchanged() {
    let stmt = Statement {
        shape: StmtShape::ExprStmt,
        annotations: vec![Annotation {
            name: "inline".to_string(),
            args: vec![],
        }],
        text: "work() ;".to_string(),
    };
    let c = classify_stmt(&stmt, 0).unwrap();
    assert_eq!(c.tag, None);
    assert_eq!(c.stmt.annotations.len(), 1);
    assert_eq!(c.stmt.annotations[0].name, "inline");
    assert_eq!(c.stmt.text, "work() ;");
}

#[test]
fn name_replacement_is_structural() {
    // A parameter whose name contains the function's identifier must stay
    // untouched when the identifier is replaced per variant.
    let template = FunctionTemplate {
        name: "f".to_string(),
        generics: String::new(),
        params: "f_value : u32".to_string(),
        ret: "-> u32 ".to_string(),
        body: vec![tail("f_value")],
    };
    let out = expand(&template).unwrap();
    let expected = "pub mod f {\n\
         pub fn default(f_value : u32) -> u32 {\nf_value\n}\n\
         }";
    assert_eq!(out, expected);
}
