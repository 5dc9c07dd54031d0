use lojix_macros::codegen::{
    field_type_to_rust_type, load_failure_message, macro_error, plan_domain, plan_fold,
    plan_morphism, plan_product, DomainEnum, MacroKind, Registry, RustType,
};
use lojix_macros::ident::is_legal_ident;
use lojix_macros::db::{
    all_domains_query, columns_query, domain_variants_query, field_info, field_type_query,
    init_failure, init_stages, load_db_failure, probe_query, product_column_names,
    query_domain_variants, query_rpc_methods, rpc_methods_query, runnable_statement,
    EnumDomainScan, FieldInfo, InitRun, InitStage, MethodInfo,
};
use lojix_macros::rows::{texts_at, Cell, QueryResult, Row};
use lojix_macros::text::{
    char_is_whitespace, chars_of, is_comment_only, str_eq, to_pascal_string, to_snake_case,
    trim_text,
};

fn text_cell(s: &str) -> Cell {
    Cell { text: Some(s.to_string()), tagged_text: None, flag: None, tagged_flag: None }
}

fn tagged_text_cell(s: &str) -> Cell {
    Cell { text: None, tagged_text: Some(s.to_string()), flag: None, tagged_flag: None }
}

fn flag_cell(b: bool) -> Cell {
    Cell { text: None, tagged_text: None, flag: Some(b), tagged_flag: None }
}

fn tagged_flag_cell(b: bool) -> Cell {
    Cell { text: None, tagged_text: None, flag: None, tagged_flag: Some(b) }
}

fn empty_cell() -> Cell {
    Cell { text: None, tagged_text: None, flag: None, tagged_flag: None }
}

fn answer(rows: Vec<Vec<Cell>>) -> Result<QueryResult, String> {
    Ok(QueryResult { rows: Some(rows.into_iter().map(|cells| Row { cells: Some(cells) }).collect()) })
}

fn strings(v: &[&str]) -> Vec<String> {
    v.iter().map(|s| s.to_string()).collect()
}

// --- names ---------------------------------------------------------------

#[test]
fn pascal_case_of_snake_and_kebab_names() {
    assert_eq!(to_pascal_string("manifest"), "Manifest");
    assert_eq!(to_pascal_string("long_name"), "LongName");
    assert_eq!(to_pascal_string("long-name"), "LongName");
    assert_eq!(to_pascal_string("a-b_c"), "ABC");
    assert_eq!(to_pascal_string("__x__y"), "XY");
    assert_eq!(to_pascal_string(""), "");
    assert_eq!(to_pascal_string("already Pascal"), "Already Pascal");
    assert_eq!(to_pascal_string("9lives"), "9lives");
}

#[test]
fn pascal_case_uses_unicode_upper_case() {
    assert_eq!(to_pascal_string("straße_ß"), "StraßeSS");
    assert_eq!(to_pascal_string("éclair"), "Éclair");
}

#[test]
fn snake_case_replaces_hyphens() {
    assert_eq!(to_snake_case("get-phase-name"), "get_phase_name");
    assert_eq!(to_snake_case("already_snake"), "already_snake");
    assert_eq!(to_snake_case("-"), "_");
    assert_eq!(to_snake_case(""), "");
}

#[test]
fn whitespace_matches_std() {
    for u in 0u32..=0x10ffff {
        if let Some(c) = char::from_u32(u) {
            assert_eq!(char_is_whitespace(c), c.is_whitespace(), "code point {u:#x}");
        }
    }
}

#[test]
fn trim_matches_std() {
    for s in ["", "  a b  ", "\t\r\n x\u{3000}", "\u{85}", "abc"] {
        assert_eq!(trim_text(s), s.trim());
    }
}

#[test]
fn helpers_on_characters() {
    assert_eq!(chars_of("héllo"), vec!['h', 'é', 'l', 'l', 'o']);
    assert!(str_eq("abc", "abc"));
    assert!(!str_eq("abc", "abd"));
    assert!(!str_eq("abc", "ab"));
}

// --- comments and statements --------------------------------------------

#[test]
fn comment_only_text() {
    assert!(is_comment_only(""));
    assert!(is_comment_only("# a comment"));
    assert!(is_comment_only("  // a comment\n\n# another\n   \t"));
    assert!(is_comment_only("#x\r\n//y\r\n"));
    assert!(!is_comment_only("# comment\n:create x {a}"));
    assert!(!is_comment_only("/ single slash"));
    assert!(!is_comment_only("  /"));
    assert!(!is_comment_only("/ /"));
    assert!(!is_comment_only("?[x] := x = 1 # trailing"));
}

#[test]
fn comment_only_matches_lines_and_trim() {
    let samples = [
        "", "\n", "a", "#", "//", "/", " #\n x", "x\n#", "\r\n", "// a\n/", "\t//\n  #\n",
        "# a\n\n\n", "/x", "#//\n//#",
    ];
    for s in samples {
        let expected = s.lines().all(|line| {
            let t = line.trim();
            t.is_empty() || t.starts_with('#') || t.starts_with("//")
        });
        assert_eq!(is_comment_only(s), expected, "{s:?}");
    }
}

#[test]
fn runnable_statements() {
    assert_eq!(runnable_statement("  :create Phase {name: String}  \n"), Some(":create Phase {name: String}".to_string()));
    assert_eq!(runnable_statement("   \n\t"), None);
    assert_eq!(runnable_statement("\n# only a comment\n// and another\n"), None);
    assert_eq!(runnable_statement("# header\n?[a] <- [[1]]"), Some("# header\n?[a] <- [[1]]".to_string()));
}

#[test]
fn init_stages_in_order() {
    let labels: Vec<&str> = init_stages().iter().map(|s| s.label()).collect();
    assert_eq!(
        labels,
        vec![
            "core init", "core seed", "samskara init", "samskara seed", "sema-core init",
            "sema-core seed", "sema-core field", "sema init", "sema seed", "sema field",
            "noesis init", "noesis seed", "field_type seed",
        ]
    );
    assert_eq!(init_failure(&InitStage::SemaCoreField, "parse error"), "sema-core field: parse error");
    assert_eq!(load_db_failure("core init: boom"), "DB init failed: core init: boom");
}

// --- queries and answers ------------------------------------------------

#[test]
fn query_texts() {
    assert_eq!(domain_variants_query("Phase"), "?[name] := *Phase{name} :order name");
    assert_eq!(columns_query("Measure"), "::columns Measure");
    assert_eq!(
        field_type_query("Measure", "unit"),
        "?[kind, target_domain] := *field_type{relation: \"Measure\", column: \"unit\", kind, target_domain, unit_domain, description, phase, dignity}"
    );
    assert_eq!(
        rpc_methods_query("Samskara"),
        "?[method, description] := *rpc_method{interface: \"Samskara\", method, description, phase, dignity} :order method"
    );
    assert_eq!(all_domains_query(), "?[name] := *Domain{name} :order name");
    assert_eq!(probe_query("Phase"), "?[name] := *Phase{name} :limit 1");
}

#[test]
fn domain_variants_decoding() {
    let rows = answer(vec![
        vec![text_cell("becoming")],
        vec![tagged_text_cell("manifest")],
        vec![flag_cell(true)],
        vec![],
        vec![text_cell("retired"), text_cell("ignored")],
    ]);
    assert_eq!(query_domain_variants("Phase", rows).unwrap(), strings(&["becoming", "manifest", "retired"]));
    let not_array = Ok(QueryResult { rows: Some(vec![Row { cells: None }, Row { cells: Some(vec![text_cell("a")]) }]) });
    assert_eq!(query_domain_variants("X", not_array).unwrap(), strings(&["a"]));
    assert_eq!(query_domain_variants("Phase", Err("no such relation".to_string())), Err("query domain Phase: no such relation".to_string()));
    assert_eq!(query_domain_variants("Phase", Ok(QueryResult { rows: None })), Err("domain Phase: missing rows".to_string()));
}

#[test]
fn texts_prefer_plain_strings() {
    let c = Cell { text: Some("plain".to_string()), tagged_text: Some("tagged".to_string()), flag: None, tagged_flag: None };
    let rows = vec![Row { cells: Some(vec![c]) }, Row { cells: Some(vec![empty_cell()]) }];
    assert_eq!(texts_at(&rows, 0), strings(&["plain"]));
    assert_eq!(texts_at(&rows, 1), Vec::<String>::new());
}

#[test]
fn product_columns_decoding() {
    let ok = answer(vec![vec![text_cell("name"), flag_cell(true)], vec![tagged_text_cell("phase")]]);
    assert_eq!(product_column_names("Measure", ok).unwrap(), strings(&["name", "phase"]));
    assert_eq!(product_column_names("Measure", Err("boom".to_string())), Err("columns Measure: boom".to_string()));
    assert_eq!(product_column_names("Measure", Ok(QueryResult { rows: None })), Err("product Measure: missing column rows".to_string()));
    let not_array = Ok(QueryResult { rows: Some(vec![Row { cells: Some(vec![text_cell("a")]) }, Row { cells: None }, Row { cells: Some(vec![]) }]) });
    assert_eq!(product_column_names("M", not_array), Err("column row not array".to_string()));
    let nameless = answer(vec![vec![text_cell("a")], vec![flag_cell(false)], vec![]]);
    assert_eq!(product_column_names("M", nameless), Err("missing column name".to_string()));
}

#[test]
fn field_info_defaults() {
    let f = field_info("phase".to_string(), answer(vec![vec![text_cell("domain"), text_cell("Phase")]]));
    assert_eq!((f.name.as_str(), f.kind.as_str(), f.target_domain.as_str()), ("phase", "domain", "Phase"));
    let f = field_info("x".to_string(), answer(vec![vec![text_cell("bool")]]));
    assert_eq!((f.kind.as_str(), f.target_domain.as_str()), ("bool", ""));
    let f = field_info("x".to_string(), answer(vec![vec![flag_cell(true), text_cell("T")]]));
    assert_eq!((f.kind.as_str(), f.target_domain.as_str()), ("data", "T"));
    let f = field_info("x".to_string(), answer(vec![]));
    assert_eq!((f.kind.as_str(), f.target_domain.as_str()), ("data", ""));
    let f = field_info("x".to_string(), Err("no field_type".to_string()));
    assert_eq!((f.kind.as_str(), f.target_domain.as_str()), ("data", ""));
    let f = field_info("x".to_string(), Ok(QueryResult { rows: Some(vec![Row { cells: None }]) }));
    assert_eq!((f.kind.as_str(), f.target_domain.as_str()), ("data", ""));
}

#[test]
fn rpc_methods_decoding() {
    let rows = answer(vec![
        vec![text_cell("get-phase"), text_cell("Read the phase")],
        vec![flag_cell(true), text_cell("no name")],
        vec![tagged_text_cell("set-phase")],
    ]);
    let methods = query_rpc_methods("Samskara", rows).unwrap();
    let got: Vec<(&str, &str)> = methods.iter().map(|m| (m.name.as_str(), m.description.as_str())).collect();
    assert_eq!(got, vec![("get-phase", "Read the phase"), ("set-phase", "")]);
    assert_eq!(query_rpc_methods("S", Err("e".to_string())).err(), Some("query rpc_method S: e".to_string()));
    assert_eq!(query_rpc_methods("S", Ok(QueryResult { rows: None })).err(), Some("morphism S: missing rows".to_string()));
}

// --- registry scan ------------------------------------------------------

#[test]
fn enum_domain_scan_keeps_single_key_domains_with_rows() {
    let listing = answer(vec![
        vec![text_cell("Alpha")],
        vec![text_cell("")],
        vec![text_cell("Beta")],
        vec![tagged_text_cell("Gamma")],
        vec![text_cell("Delta")],
        vec![text_cell("Epsilon")],
    ]);
    let mut scan = EnumDomainScan::start(listing).unwrap();
    let mut asked = Vec::new();
    while let Some(q) = scan.next_query() {
        asked.push(q.clone());
        let reply = match q.as_str() {
            "::columns Alpha" => answer(vec![vec![text_cell("name"), flag_cell(true)], vec![text_cell("v"), flag_cell(false)]]),
            "?[name] := *Alpha{name} :limit 1" => answer(vec![vec![text_cell("a")]]),
            "::columns Beta" => answer(vec![vec![text_cell("a"), flag_cell(true)], vec![text_cell("b"), tagged_flag_cell(true)]]),
            "::columns Gamma" => answer(vec![vec![text_cell("name"), tagged_flag_cell(true)]]),
            "?[name] := *Gamma{name} :limit 1" => answer(vec![]),
            "::columns Delta" => Err("no relation".to_string()),
            "::columns Epsilon" => answer(vec![vec![text_cell("name"), flag_cell(true)]]),
            "?[name] := *Epsilon{name} :limit 1" => answer(vec![vec![text_cell("e")]]),
            other => panic!("unexpected query {other}"),
        };
        scan.feed(reply);
    }
    assert!(scan.is_finished());
    assert_eq!(scan.found(), strings(&["Alpha", "Epsilon"]));
    assert_eq!(asked.len(), 8);
}

#[test]
fn enum_domain_scan_errors() {
    assert_eq!(EnumDomainScan::start(Err("down".to_string())).err(), Some("query Domain: down".to_string()));
    assert_eq!(EnumDomainScan::start(Ok(QueryResult { rows: None })).err(), Some("Domain: missing rows".to_string()));
}

// --- generated items ----------------------------------------------------

fn phase() -> DomainEnum {
    DomainEnum::new("Phase", strings(&["becoming", "manifest", "retired"]))
}

#[test]
fn domain_enum_conversions() {
    let p = phase();
    assert_eq!(p.enum_name(), "Phase");
    assert_eq!(p.all(), vec![0, 1, 2]);
    assert_eq!(p.idents(), strings(&["Becoming", "Manifest", "Retired"]));
    assert_eq!(p.ident(2), "Retired");
    assert_eq!(p.from_discriminant(3), None);
    assert_eq!(p.from_discriminant(2), Some(2));
    assert_eq!(p.from_str("bogus"), Err("unknown Phase variant: bogus".to_string()));
    assert_eq!(p.from_str("Manifest"), Err("unknown Phase variant: Manifest".to_string()));
    assert_eq!(p.variant("manifest"), None);
}

#[test]
fn domain_plan_errors() {
    assert_eq!(plan_domain("Phase", Err("query domain Phase: boom".to_string())).err(), Some("lojix::domain!(Phase): query domain Phase: boom".to_string()));
    assert_eq!(plan_domain("Empty", Ok(Vec::new())).err(), Some("lojix::domain!(Empty): no variants found".to_string()));
    assert_eq!(load_failure_message(&MacroKind::Domain, "DB init failed: x"), "lojix::domain!: failed to load DB: DB init failed: x");
    assert_eq!(load_failure_message(&MacroKind::DomainRegistry, "e"), "lojix::domain_registry!: failed to load DB: e");
    assert_eq!(macro_error(&MacroKind::DomainRegistry, "query Domain: e"), "lojix::domain_registry!: query Domain: e");
}

#[test]
fn fold_plan_errors() {
    let vs = || Ok(strings(&["becoming", "manifest", "retired"]));
    assert_eq!(
        plan_fold("Phase", vs(), strings(&["Becoming", "Retired"])).err(),
        Some("lojix::fold!(Phase): missing arm for variant `Manifest`".to_string())
    );
    assert_eq!(
        plan_fold("Phase", vs(), strings(&["Becoming", "Manifest", "Retired", "Gone"])).err(),
        Some("lojix::fold!(Phase): unknown variant `Gone`".to_string())
    );
    assert_eq!(
        plan_fold("Phase", vs(), strings(&["Gone"])).err(),
        Some("lojix::fold!(Phase): missing arm for variant `Becoming`".to_string())
    );
    assert_eq!(plan_fold("Phase", Err("e".to_string()), Vec::new()).err(), Some("lojix::fold!(Phase): e".to_string()));
    let plan = plan_fold("Phase", vs(), strings(&["Retired", "Becoming", "Manifest"])).unwrap();
    assert_eq!(plan.arms(), &strings(&["Retired", "Becoming", "Manifest"]));
    assert_eq!(plan.arm_for("Becoming"), Some(1));
    assert!(plan_fold("Empty", Ok(Vec::new()), Vec::new()).is_ok());
}

#[test]
fn product_plan() {
    let fields = vec![
        FieldInfo { name: "phase".to_string(), kind: "domain".to_string(), target_domain: "Phase".to_string() },
        FieldInfo { name: "ok".to_string(), kind: "bool".to_string(), target_domain: String::new() },
        FieldInfo { name: "n".to_string(), kind: "int".to_string(), target_domain: String::new() },
        FieldInfo { name: "raw".to_string(), kind: "data".to_string(), target_domain: String::new() },
        FieldInfo { name: "odd".to_string(), kind: "float".to_string(), target_domain: String::new() },
    ];
    let plan = plan_product("Measure", Ok(fields)).unwrap();
    assert_eq!(plan.name, "Measure");
    let names: Vec<&str> = plan.fields.iter().map(|f| f.name.as_str()).collect();
    assert_eq!(names, vec!["phase", "ok", "n", "raw", "odd"]);
    assert!(matches!(&plan.fields[0].ty, RustType::Domain(d) if d == "Phase"));
    assert!(matches!(plan.fields[1].ty, RustType::Bool));
    assert!(matches!(plan.fields[2].ty, RustType::TypedInt));
    assert!(matches!(plan.fields[3].ty, RustType::Bytes));
    assert!(matches!(plan.fields[4].ty, RustType::Bytes));
    assert_eq!(plan_product("Measure", Ok(Vec::new())).err(), Some("lojix::product!(Measure): no fields found".to_string()));
    assert_eq!(plan_product("M", Err("columns M: e".to_string())).err(), Some("lojix::product!(M): columns M: e".to_string()));
    assert!(matches!(field_type_to_rust_type("domain", "Phase"), RustType::Domain(d) if d == "Phase"));
}

#[test]
fn morphism_plan() {
    let methods = vec![
        MethodInfo { name: "get-phase".to_string(), description: "Read it".to_string() },
        MethodInfo { name: "reset".to_string(), description: String::new() },
    ];
    let plan = plan_morphism("Samskara", Ok(methods)).unwrap();
    let got: Vec<(&str, &str)> = plan.methods.iter().map(|m| (m.ident.as_str(), m.doc.as_str())).collect();
    assert_eq!(got, vec![("get_phase", "Read it"), ("reset", "")]);
    assert!(plan_morphism("Empty", Ok(Vec::new())).unwrap().methods.is_empty());
    assert_eq!(plan_morphism("S", Err("e".to_string())).err(), Some("lojix::morphism!(S): e".to_string()));
}

#[test]
fn registry_skips_failed_and_empty_domains() {
    let mut reg = Registry::new();
    assert!(reg.add_domain("Phase", Ok(strings(&["becoming", "manifest", "retired"]))).is_ok());
    assert!(reg.add_domain("Empty", Ok(Vec::new())).is_ok());
    assert!(reg.add_domain("Broken", Err("boom".to_string())).is_ok());
    assert!(reg.add_domain("Element", Ok(strings(&["air", "earth", "fire", "water"]))).is_ok());
    assert_eq!(reg.domain_count(), 2);
    assert_eq!(reg.domain_names(), strings(&["Phase", "Element"]));
    assert_eq!(reg.translate_domain("Element", 3), Some("water".to_string()));
    assert_eq!(reg.translate_domain("Element", 4), None);
    assert_eq!(reg.translate_domain("Empty", 0), None);
    assert_eq!(reg.position("Element"), Some(1));
}

#[test]
fn laws_on_concrete_domains() {
    let p = phase();
    for v in p.all() {
        assert_eq!(p.from_discriminant(p.discriminant(v)), Some(v));
        assert_eq!(p.from_str(p.name(v)), Ok(v));
        assert_eq!(p.variant(&p.ident(v)), Some(v));
    }
    assert_eq!(to_pascal_string(&to_snake_case("a-b_c-d")), to_pascal_string("a-b_c-d"));
    assert!(!to_snake_case("x-y-z").contains('-'));
}

// --- identifiers --------------------------------------------------------

#[test]
fn legal_identifiers() {
    for ok in ["Phase", "_", "_x", "a1", "fn", "self", "Éclair", "日本"] {
        assert!(is_legal_ident(ok), "{ok:?}");
    }
    for bad in ["", "9lives", "123", "a-b", "a b", "x.y", "-", "a\u{200b}"] {
        assert!(!is_legal_ident(bad), "{bad:?}");
    }
}

#[test]
fn product_rejects_non_identifiers() {
    let field = |name: &str, kind: &str, target: &str| FieldInfo {
        name: name.to_string(),
        kind: kind.to_string(),
        target_domain: target.to_string(),
    };
    let fields = vec![field("phase", "domain", ""), field("bad name", "bool", "")];
    assert_eq!(
        plan_product("Measure", Ok(fields)).err(),
        Some("lojix::product!(Measure): `` is not a valid identifier".to_string())
    );
    let fields = vec![field("ok", "bool", ""), field("bad name", "domain", "Phase")];
    assert_eq!(
        plan_product("Measure", Ok(fields)).err(),
        Some("lojix::product!(Measure): `bad name` is not a valid identifier".to_string())
    );
    let fields = vec![field("x", "data", ""), field("y", "bool", "not a domain")];
    assert!(plan_product("Measure", Ok(fields)).is_ok());
}

#[test]
fn domain_and_morphism_reject_non_identifiers() {
    assert_eq!(
        plan_domain("Odd", Ok(strings(&["fine", "9lives", "x y"]))).err(),
        Some("lojix::domain!(Odd): `9lives` is not a valid identifier".to_string())
    );
    let methods = vec![
        MethodInfo { name: "ok-name".to_string(), description: String::new() },
        MethodInfo { name: "has space".to_string(), description: String::new() },
    ];
    assert_eq!(
        plan_morphism("S", Ok(methods)).err(),
        Some("lojix::morphism!(S): `has space` is not a valid identifier".to_string())
    );
}

#[test]
fn registry_rejects_non_identifiers() {
    let names = strings(&["Phase", "Bad Name", "Later"]);
    let answers = vec![
        Ok(strings(&["becoming"])),
        Ok(strings(&["x"])),
        Ok(strings(&["9"])),
    ];
    assert_eq!(
        Registry::from_answers(&names, answers).err(),
        Some("lojix::domain_registry!(Bad Name): `Bad Name` is not a valid identifier".to_string())
    );
    let names = strings(&["Phase", "Empty", "Odd"]);
    let answers = vec![Ok(strings(&["becoming"])), Ok(Vec::new()), Ok(strings(&["ok", "2nd"]))];
    assert_eq!(
        Registry::from_answers(&names, answers).err(),
        Some("lojix::domain_registry!(Odd): `2nd` is not a valid identifier".to_string())
    );
    let mut reg = Registry::new();
    assert!(reg.add_domain("Odd", Ok(strings(&["-"]))).is_err());
    assert_eq!(reg.domain_count(), 0);
}

#[test]
fn registry_from_answers_keeps_order_and_skips() {
    let names = strings(&["Phase", "Empty", "Broken", "Element"]);
    let answers = vec![
        Ok(strings(&["becoming", "manifest", "retired"])),
        Ok(Vec::new()),
        Err("boom".to_string()),
        Ok(strings(&["air", "earth", "fire", "water"])),
    ];
    let reg = Registry::from_answers(&names, answers).unwrap();
    assert_eq!(reg.domain_names(), strings(&["Phase", "Element"]));
    assert_eq!(reg.domain_count(), 2);
}

// --- loading ------------------------------------------------------------

#[test]
fn init_run_runs_in_order_and_stops_at_failure() {
    let mut scripts: Vec<Vec<String>> = vec![Vec::new(); 13];
    scripts[0] = strings(&["# header only", " :create A {x} ", "", ":put A {x: 1}"]);
    scripts[4] = strings(&["  ?[x] <- [[1]]\n"]);
    scripts[12] = strings(&["// nothing", ":put F {y: 2}"]);
    let mut run = InitRun::start(&scripts);
    let mut ran = Vec::new();
    while let Some(stmt) = run.next_statement() {
        ran.push(stmt.clone());
        run.feed(Ok(()));
    }
    assert_eq!(ran, strings(&[":create A {x}", ":put A {x: 1}", "?[x] <- [[1]]", ":put F {y: 2}"]));
    assert!(matches!(run.outcome(), Some(Ok(()))));

    let mut run = InitRun::start(&scripts);
    assert!(run.outcome().is_none());
    let mut ran = Vec::new();
    while let Some(stmt) = run.next_statement() {
        ran.push(stmt.clone());
        if stmt.starts_with("?[") {
            run.feed(Err("parse error".to_string()));
        } else {
            run.feed(Ok(()));
        }
    }
    assert_eq!(ran.len(), 3);
    assert!(matches!(run.outcome(), Some(Err(m)) if m == "sema-core init: parse error"));
}

#[test]
fn pascal_case_twice_is_pascal_case_once() {
    for s in ["manifest", "long_name", "a-b_c", "__x__y", "Already", "x9_y", ""] {
        let once = to_pascal_string(s);
        assert_eq!(to_pascal_string(&once), once);
        let separators = s.chars().filter(|c| *c == '_' || *c == '-').count();
        assert_eq!(once.len(), s.len() - separators);
        assert!(!once.contains('_') && !once.contains('-'));
    }
}

#[test]
fn too_many_variants_is_an_error() {
    let many: Vec<String> = (0..65536).map(|i| format!("v{i}")).collect();
    assert_eq!(
        plan_domain("Huge", Ok(many.clone())).err(),
        Some("lojix::domain!(Huge): more variants than u16 discriminants".to_string())
    );
    let names = strings(&["Huge"]);
    assert_eq!(
        Registry::from_answers(&names, vec![Ok(many)]).err(),
        Some("lojix::domain_registry!(Huge): more variants than u16 discriminants".to_string())
    );
    let fits: Vec<String> = (0..65535).map(|i| format!("v{i}")).collect();
    assert_eq!(plan_domain("Big", Ok(fits)).unwrap().count(), 65535);
}
