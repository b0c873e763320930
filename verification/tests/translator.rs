use lunar::ast::{
    Block, Expr, ExprBinOp, ExprIdent, ExprLit, File, Ident, Item, ItemImport, ItemSub, Lit,
    LitInt, Param, Signature, Stmt, StmtCall, StmtDecl, StmtFor, StmtIf, Type,
};
use lunar::error::TranslateError;
use lunar::translator::{lower_file, translate, Block as Lowered, BlockType};

fn ident(name: &str) -> Ident {
    Ident { name: name.to_owned() }
}

fn var(name: &str) -> Expr {
    Expr::Ident(ExprIdent { ident: ident(name) })
}

fn int_lit(value: i64) -> Expr {
    Expr::Lit(ExprLit { lit: Lit::Int(LitInt { value }) })
}

fn import(name: &str, params: Vec<(&str, Type)>) -> Item {
    Item::Import(ItemImport {
        signature: Signature {
            ident: ident(name),
            params: params
                .into_iter()
                .map(|(n, ty)| Param { name: ident(n), ty })
                .collect(),
        },
    })
}

fn sub(name: &str, stmts: Vec<Stmt>) -> Item {
    Item::Sub(ItemSub {
        signature: Signature { ident: ident(name), params: Vec::new() },
        body: Block { stmts },
    })
}

fn decl(names: &[&str]) -> Stmt {
    Stmt::Decl(StmtDecl { dfs: names.iter().map(|n| ident(n)).collect() })
}

fn call(name: &str, args: Vec<Expr>) -> Stmt {
    Stmt::Call(StmtCall { ident: ident(name), args })
}

fn has(set: &lunar::names::NameSet, name: &str) -> bool {
    set.contains(&name.to_owned())
}

fn ctx_has(map: &lunar::names::NameMap, name: &str) -> Option<Type> {
    map.get(&name.to_owned())
}

/// Collect every id of a lowered tree.
fn ids(block: &Lowered, out: &mut Vec<u64>) {
    out.push(block.id);
    match &block.ty {
        BlockType::Fork(f) => {
            for c in &f.children {
                ids(c, out);
            }
        }
        BlockType::For(f) => ids(&f.block, out),
        BlockType::If(c) => ids(&c.body, out),
        BlockType::ExternCall(_) => {}
    }
}

fn identity_file() -> File {
    File {
        items: vec![
            import("produce", vec![("out", Type::Name)]),
            import("consume", vec![("v", Type::Value)]),
            sub(
                "main",
                vec![
                    decl(&["x"]),
                    call("produce", vec![var("x")]),
                    call("consume", vec![var("x")]),
                ],
            ),
        ],
    }
}

#[test]
fn identity_produce_submits_consume_waits() {
    let (_externs, blocks) = lower_file(identity_file()).unwrap();
    assert_eq!(blocks.len(), 1);
    let (name, root) = &blocks[0];
    assert_eq!(name, "main");
    let BlockType::Fork(fork) = &root.ty else {
        panic!("root is not a fork")
    };
    assert_eq!(fork.decls, vec!["x".to_owned()]);
    assert!(has(&root.local, "x"));
    assert_eq!(fork.children.len(), 2);
    let produce = &fork.children[0];
    let consume = &fork.children[1];
    assert!(has(&produce.submit, "x"));
    assert!(!has(&produce.wait, "x"));
    assert!(has(&consume.wait, "x"));
    assert!(!has(&consume.submit, "x"));
    assert_eq!(ctx_has(&produce.ctx, "x"), Some(Type::Value));
    assert_eq!(ctx_has(&consume.ctx, "x"), Some(Type::Value));
    // the root's context strips the declared handle
    assert_eq!(ctx_has(&root.ctx, "x"), None);
}

#[test]
fn identity_emitted_c_shape() {
    let out = translate(identity_file()).unwrap();
    assert!(out.contains("void produce(df out);"));
    assert!(out.contains("void consume(df v);"));
    assert!(out.contains("void *entry = block_"));
    assert!(out.contains("submit(ctx->x);"));
    assert!(out.contains("if (request(&ctx->x)) { return WAIT; }"));
    assert!(out.contains("df x=df_create();"));
    assert!(out.contains("dealloc(ctx);return EXIT;}"));
}

#[test]
fn parallel_fanout_disjoint_submits() {
    let file = File {
        items: vec![
            import("p", vec![("out", Type::Name)]),
            import("join", vec![("a", Type::Value), ("b", Type::Value)]),
            sub(
                "main",
                vec![
                    decl(&["a", "b"]),
                    call("p", vec![var("a")]),
                    call("p", vec![var("b")]),
                    call("join", vec![var("a"), var("b")]),
                ],
            ),
        ],
    };
    let (_externs, blocks) = lower_file(file).unwrap();
    let root = &blocks[0].1;
    let BlockType::Fork(fork) = &root.ty else {
        panic!("root is not a fork")
    };
    assert_eq!(fork.children.len(), 3);
    let pa = &fork.children[0];
    let pb = &fork.children[1];
    let join = &fork.children[2];
    assert!(has(&pa.submit, "a") && !has(&pa.submit, "b"));
    assert!(has(&pb.submit, "b") && !has(&pb.submit, "a"));
    assert!(has(&join.wait, "a") && has(&join.wait, "b"));
    assert!(join.submit.len() == 0);
}

#[test]
fn loop_child_captures_seed_and_index() {
    let file = File {
        items: vec![
            import("seed", vec![("out", Type::Name)]),
            import("step", vec![("v", Type::Value), ("i", Type::Int)]),
            sub(
                "main",
                vec![
                    decl(&["s"]),
                    call("seed", vec![var("s")]),
                    Stmt::For(StmtFor {
                        index: ident("i"),
                        lower: int_lit(0),
                        upper: int_lit(10),
                        body: Block { stmts: vec![call("step", vec![var("s"), var("i")])] },
                    }),
                ],
            ),
        ],
    };
    let (_externs, blocks) = lower_file(file).unwrap();
    let root = &blocks[0].1;
    let BlockType::Fork(fork) = &root.ty else {
        panic!("root is not a fork")
    };
    let for_block = &fork.children[1];
    let BlockType::For(f) = &for_block.ty else {
        panic!("second child is not a for")
    };
    // literal bounds capture nothing
    assert_eq!(for_block.wait.len(), 0);
    assert!(has(&for_block.local, "i"));
    assert_eq!(ctx_has(&for_block.ctx, "s"), Some(Type::Value));
    // the loop body forks the call; the call waits on the handle and
    // carries the index with its declared kind
    let BlockType::Fork(body_fork) = &f.block.ty else {
        panic!("for body is not a fork")
    };
    let step = &body_fork.children[0];
    assert_eq!(ctx_has(&step.ctx, "s"), Some(Type::Value));
    assert_eq!(ctx_has(&step.ctx, "i"), Some(Type::Int));
    assert!(has(&step.wait, "s"));
}

#[test]
fn conditional_waits_on_condition() {
    let file = File {
        items: vec![
            import("produce", vec![("out", Type::Name)]),
            import("sink", vec![("v", Type::Value)]),
            sub(
                "main",
                vec![
                    decl(&["x"]),
                    call("produce", vec![var("x")]),
                    Stmt::If(StmtIf {
                        cond: var("x"),
                        body: Block { stmts: vec![call("sink", vec![var("x")])] },
                    }),
                ],
            ),
        ],
    };
    let (_externs, blocks) = lower_file(file).unwrap();
    let root = &blocks[0].1;
    let BlockType::Fork(fork) = &root.ty else {
        panic!("root is not a fork")
    };
    let if_block = &fork.children[1];
    assert!(matches!(if_block.ty, BlockType::If(_)));
    assert!(has(&if_block.wait, "x"));
}

#[test]
fn arity_mismatch_is_reported() {
    let file = File {
        items: vec![
            import("f", vec![("a", Type::Int), ("b", Type::Int)]),
            sub("main", vec![call("f", vec![int_lit(1)])]),
        ],
    };
    let err = translate(file).unwrap_err();
    assert_eq!(err.errors.len(), 1);
    match &err.errors[0] {
        TranslateError::ArityMismatch(n) => assert_eq!(n, "f"),
        other => panic!("unexpected diagnostic {:?}", other),
    }
}

#[test]
fn unknown_symbol_is_reported() {
    let file = File { items: vec![sub("main", vec![call("nope", vec![])])] };
    let err = translate(file).unwrap_err();
    match &err.errors[0] {
        TranslateError::UnknownSymbol(n) => assert_eq!(n, "nope"),
        other => panic!("unexpected diagnostic {:?}", other),
    }
}

#[test]
fn untyped_identifier_is_reported() {
    let file = File {
        items: vec![
            import("f", vec![("a", Type::Int)]),
            sub("main", vec![call("f", vec![var("mystery")])]),
        ],
    };
    let err = translate(file).unwrap_err();
    match &err.errors[0] {
        TranslateError::UntypedIdentifier(n) => assert_eq!(n, "mystery"),
        other => panic!("unexpected diagnostic {:?}", other),
    }
}

#[test]
fn redeclaration_is_reported() {
    let file = File { items: vec![sub("main", vec![decl(&["x", "x"])])] };
    let err = translate(file).unwrap_err();
    match &err.errors[0] {
        TranslateError::Redeclaration(n) => assert_eq!(n, "x"),
        other => panic!("unexpected diagnostic {:?}", other),
    }
}

#[test]
fn block_ids_are_distinct() {
    let file = identity_file();
    let (_externs, blocks) = lower_file(file).unwrap();
    let mut seen = Vec::new();
    for (_, b) in &blocks {
        ids(b, &mut seen);
    }
    let mut sorted = seen.clone();
    sorted.sort();
    sorted.dedup();
    assert_eq!(sorted.len(), seen.len());
}

#[test]
fn emission_is_deterministic() {
    let a = translate(identity_file()).unwrap();
    let b = translate(identity_file()).unwrap();
    assert_eq!(a, b);
}

#[test]
fn empty_file_emits_exactly_the_header() {
    let out = translate(File { items: Vec::new() }).unwrap();
    let header = "#include <stddef.h>\ntypedef struct { unsigned long id; void *slot; } df;\ntypedef enum { WAIT, EXIT } Action;\ndf df_create(void);\nint request(df *d);\nvoid submit(df d);\ndf wait(df d);\nvoid spawn(Action (*block)(void *), void *ctx);\nvoid *alloc(size_t n);\nvoid dealloc(void *p);\nint cast_int(df d);\n";
    assert_eq!(out, header);
}

#[test]
fn single_import_declaration_text() {
    let out = translate(File { items: vec![import("f", vec![("a", Type::Int), ("b", Type::Float)])] })
        .unwrap();
    assert!(out.ends_with("void f(int a,float b);"));
}

#[test]
fn arithmetic_expression_emission() {
    let file = File {
        items: vec![
            import("f", vec![("a", Type::Int)]),
            Item::Sub(ItemSub {
                signature: Signature {
                    ident: ident("main"),
                    params: vec![Param { name: ident("n"), ty: Type::Int }],
                },
                body: Block {
                    stmts: vec![call(
                        "f",
                        vec![Expr::BinOp(ExprBinOp {
                            lhs: Box::new(var("n")),
                            op: lunar::ast::Op::Mul,
                            rhs: Box::new(int_lit(-2)),
                        })],
                    )],
                },
            }),
        ],
    };
    let out = translate(file).unwrap();
    // a waited scalar identifier reads through the cast helper; the
    // negative literal prints sign then digits
    assert!(out.contains("f(cast_int(wait(ctx->n))*-2);"));
}

#[test]
fn for_index_shadowing_bound_is_rejected() {
    let file = File {
        items: vec![
            import("f", vec![("a", Type::Int)]),
            sub(
                "main",
                vec![Stmt::For(StmtFor {
                    index: ident("i"),
                    lower: var("i"),
                    upper: int_lit(10),
                    body: Block { stmts: vec![call("f", vec![var("i")])] },
                })],
            ),
        ],
    };
    let err = translate(file).unwrap_err();
    assert!(matches!(&err.errors[0], TranslateError::Redeclaration(n) if n == "i"));
}

#[test]
fn later_subs_still_checked_after_an_error() {
    let file = File {
        items: vec![
            import("f", vec![("a", Type::Int)]),
            sub("one", vec![call("missing", vec![])]),
            sub("two", vec![call("also_missing", vec![])]),
        ],
    };
    let err = translate(file).unwrap_err();
    assert_eq!(err.errors.len(), 2);
}

#[test]
fn float_literal_prints_its_decimal_parts() {
    let file = File {
        items: vec![
            import("f", vec![("a", Type::Float)]),
            sub(
                "main",
                vec![call(
                    "f",
                    vec![Expr::Lit(ExprLit {
                        lit: Lit::Float(lunar::ast::LitFloat {
                            whole: 3,
                            frac: "25".to_owned(),
                        }),
                    })],
                )],
            ),
        ],
    };
    let out = translate(file).unwrap();
    assert!(out.contains("f(3.25);"));
}

#[test]
fn sub_parameters_become_the_root_context() {
    let file = File {
        items: vec![
            import("f", vec![("a", Type::Int)]),
            Item::Sub(ItemSub {
                signature: Signature {
                    ident: ident("work"),
                    params: vec![
                        Param { name: ident("n"), ty: Type::Int },
                        Param { name: ident("h"), ty: Type::Value },
                    ],
                },
                body: Block { stmts: vec![call("f", vec![var("n")])] },
            }),
        ],
    };
    let (_externs, blocks) = lower_file(file).unwrap();
    let root = &blocks[0].1;
    assert_eq!(ctx_has(&root.ctx, "n"), Some(Type::Int));
    assert_eq!(ctx_has(&root.ctx, "h"), Some(Type::Value));
    assert_eq!(root.ctx.len(), 2);
}

#[test]
fn handle_produced_by_a_call_is_not_waited_on() {
    // the same handle feeds a value parameter and a name parameter of one
    // call: the call produces it, so it only submits
    let file = File {
        items: vec![
            import("step", vec![("v", Type::Value), ("out", Type::Name)]),
            sub("main", vec![decl(&["x"]), call("step", vec![var("x"), var("x")])]),
        ],
    };
    let (_externs, blocks) = lower_file(file).unwrap();
    let root = &blocks[0].1;
    let BlockType::Fork(fork) = &root.ty else {
        panic!("root is not a fork")
    };
    let step = &fork.children[0];
    assert!(has(&step.submit, "x"));
    assert!(!has(&step.wait, "x"));
}

#[test]
fn nested_block_forks_and_may_shadow() {
    let file = File {
        items: vec![
            import("produce", vec![("out", Type::Name)]),
            sub(
                "main",
                vec![
                    decl(&["x"]),
                    call("produce", vec![var("x")]),
                    Stmt::Block(lunar::ast::StmtBlock {
                        block: Block {
                            stmts: vec![decl(&["x"]), call("produce", vec![var("x")])],
                        },
                    }),
                ],
            ),
        ],
    };
    let (_externs, blocks) = lower_file(file).unwrap();
    let root = &blocks[0].1;
    let BlockType::Fork(fork) = &root.ty else {
        panic!("root is not a fork")
    };
    // the nested block is its own fork with its own local handle
    let inner = &fork.children[1];
    let BlockType::Fork(inner_fork) = &inner.ty else {
        panic!("nested statement is not a fork")
    };
    assert!(has(&inner.local, "x"));
    assert_eq!(inner_fork.children.len(), 1);
    assert_eq!(ctx_has(&inner.ctx, "x"), None);
}

#[test]
fn declaring_a_name_already_captured_here_is_rejected() {
    let file = File {
        items: vec![
            import("produce", vec![("out", Type::Name)]),
            Item::Sub(ItemSub {
                signature: Signature {
                    ident: ident("main"),
                    params: vec![Param { name: ident("x"), ty: Type::Value }],
                },
                body: Block {
                    stmts: vec![call("produce", vec![var("x")]), decl(&["x"])],
                },
            }),
        ],
    };
    let err = translate(file).unwrap_err();
    assert!(matches!(&err.errors[0], TranslateError::Redeclaration(n) if n == "x"));
}
