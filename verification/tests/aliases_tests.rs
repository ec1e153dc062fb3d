use dfm_scanner::aliases::{
    build_aliases, find_vcl_base_name, is_vcl_base, parse_ini_value, resolve_lower_key,
    resolve_to_vcl_base,
    type_parents_from_rows, TypeParents,
};
use dfm_scanner::map::StrMap;

fn entry(name: &str, parent: &str, file: &str) -> (String, String, String) {
    (name.to_string(), parent.to_string(), file.to_string())
}

#[test]
fn test_parse_ini_value() {
    let content = "[Paths]\nPublicoV11=C:\\Dev\\PublicoV11\n[Other]\nKey=Value\n";
    assert_eq!(
        parse_ini_value(content, "Paths", "PublicoV11"),
        Some("C:\\Dev\\PublicoV11".to_string())
    );
    assert_eq!(
        parse_ini_value(content, "Other", "Key"),
        Some("Value".to_string())
    );
    assert_eq!(parse_ini_value(content, "Paths", "Missing"), None);
    assert_eq!(parse_ini_value(content, "NoSection", "Key"), None);
}

#[test]
fn test_parse_ini_case_insensitive() {
    let content = "[paths]\npublicov11=C:\\Dev\\PublicoV11\n";
    assert_eq!(
        parse_ini_value(content, "Paths", "PublicoV11"),
        Some("C:\\Dev\\PublicoV11".to_string())
    );
}

#[test]
fn test_is_vcl_base() {
    assert!(is_vcl_base("tpanel"));
    assert!(is_vcl_base("TPanel"));
    assert!(is_vcl_base("TFORM"));
    assert!(!is_vcl_base("TCFPainel"));
}

#[test]
fn test_resolve_to_vcl_base_direct() {
    let mut parents: TypeParents = StrMap::new();
    parents.insert(
        "tcfpainel".to_string(),
        entry("TCFPainel", "tpanel", "cfpainel.pas"),
    );

    let entry = resolve_to_vcl_base("tcfpainel", &parents).unwrap();
    assert_eq!(entry.custom_type, "TCFPainel");
    assert_eq!(entry.vcl_base, "TPanel");
    assert_eq!(entry.depth, 1);
}

#[test]
fn test_resolve_to_vcl_base_transitive() {
    let mut parents: TypeParents = StrMap::new();
    parents.insert(
        "tcfgrid".to_string(),
        entry("TCFGrid", "tcfbasegrid", "cfgrid.pas"),
    );
    parents.insert(
        "tcfbasegrid".to_string(),
        entry("TCFBaseGrid", "tstringgrid", "cfbasegrid.pas"),
    );

    let entry = resolve_to_vcl_base("tcfgrid", &parents).unwrap();
    assert_eq!(entry.custom_type, "TCFGrid");
    assert_eq!(entry.vcl_base, "TStringGrid");
    assert_eq!(entry.depth, 2);
}

#[test]
fn test_resolve_cycle_detection() {
    let mut parents: TypeParents = StrMap::new();
    parents.insert("ta".to_string(), entry("TA", "tb", "a.pas"));
    parents.insert("tb".to_string(), entry("TB", "ta", "b.pas"));

    assert!(resolve_to_vcl_base("ta", &parents).is_none());
}

#[test]
fn test_resolve_no_vcl_base() {
    let mut parents: TypeParents = StrMap::new();
    parents.insert(
        "tcustom".to_string(),
        entry("TCustom", "tunknownbase", "custom.pas"),
    );

    assert!(resolve_to_vcl_base("tcustom", &parents).is_none());
}

#[test]
fn test_find_vcl_base_name() {
    assert_eq!(find_vcl_base_name("tpanel"), "TPanel");
    assert_eq!(find_vcl_base_name("tstringgrid"), "TStringGrid");
    assert_eq!(find_vcl_base_name("tunknown"), "tunknown");
}

#[test]
fn resolve_lowercases_the_queried_name() {
    let mut parents: TypeParents = StrMap::new();
    parents.insert(
        "tcfpainel".to_string(),
        entry("TCFPainel", "tpanel", "cfpainel.pas"),
    );
    let e = resolve_to_vcl_base("TCFPainel", &parents).unwrap();
    assert_eq!(e.vcl_base, "TPanel");
    assert_eq!(e.source_file, "cfpainel.pas");
}

#[test]
fn resolve_unknown_type_is_none() {
    let parents: TypeParents = StrMap::new();
    assert!(resolve_to_vcl_base("tmissing", &parents).is_none());
}

fn chain(len: usize) -> TypeParents {
    // t0 -> t1 -> ... -> t{len-1} -> tpanel
    let mut parents: TypeParents = StrMap::new();
    for i in 0..len {
        let parent = if i + 1 == len {
            "tpanel".to_string()
        } else {
            format!("t{}", i + 1)
        };
        parents.insert(format!("t{}", i), (format!("T{}", i), parent, "f.pas".to_string()));
    }
    parents
}

#[test]
fn resolve_reaches_base_at_ten_levels() {
    let parents = chain(10);
    let e = resolve_to_vcl_base("t0", &parents).unwrap();
    assert_eq!(e.depth, 10);
    assert_eq!(e.vcl_base, "TPanel");
    assert_eq!(e.custom_type, "T0");
}

#[test]
fn resolve_gives_up_beyond_ten_levels() {
    let parents = chain(11);
    assert!(resolve_to_vcl_base("t0", &parents).is_none());
    // one level less deep from the second type
    assert_eq!(resolve_to_vcl_base("t1", &parents).unwrap().depth, 10);
}

#[test]
fn resolve_through_parent_adds_one_level() {
    let parents = chain(4);
    let parent = resolve_to_vcl_base("t1", &parents).unwrap();
    let child = resolve_to_vcl_base("t0", &parents).unwrap();
    assert_eq!(child.depth, parent.depth + 1);
    assert_eq!(child.vcl_base, parent.vcl_base);
}

#[test]
fn resolve_self_cycle_is_none() {
    let mut parents: TypeParents = StrMap::new();
    parents.insert("ta".to_string(), entry("TA", "ta", "a.pas"));
    assert!(resolve_to_vcl_base("ta", &parents).is_none());
}

#[test]
fn ini_value_is_trimmed_and_first_match_wins() {
    let content = "  [Paths]  \r\n  Key  =  first value  \r\nkey=second\n";
    assert_eq!(
        parse_ini_value(content, "paths", "KEY"),
        Some("first value".to_string())
    );
}

#[test]
fn ini_section_ends_at_next_header() {
    let content = "[A]\nx=1\n[B]\ny=2\n[a]\ny=3\n";
    assert_eq!(parse_ini_value(content, "A", "y"), Some("3".to_string()));
    assert_eq!(parse_ini_value(content, "B", "x"), None);
    assert_eq!(parse_ini_value("x=1\n", "A", "x"), None);
    assert_eq!(parse_ini_value("[A]\nx\n", "A", "x"), None);
    assert_eq!(parse_ini_value("[A]\nx=a=b\n", "A", "x"), Some("a=b".to_string()));
}

#[test]
fn rows_build_lowercase_keys() {
    let rows = vec![
        Some(entry("TCFPainel", "TPanel", "cfpainel.pas")),
        None,
        Some(entry("TCFEdit", "TEdit", "cfedit.pas")),
    ];
    let map = type_parents_from_rows(rows);
    assert_eq!(map.len(), 2);
    assert!(map.contains_key("tcfpainel"));
    assert!(map.contains_key("tcfedit"));
    assert_eq!(map.get("tcfpainel").unwrap().0, "TCFPainel");
    assert_eq!(map.get("tcfpainel").unwrap().1, "tpanel");
    assert_eq!(map.get("tcfedit").unwrap().0, "TCFEdit");
    assert_eq!(map.get("tcfedit").unwrap().1, "tedit");
}

#[test]
fn build_aliases_prefers_local_and_skips_base_types() {
    let mut public: TypeParents = StrMap::new();
    public.insert("tcfgrid".to_string(), entry("TCFGrid", "tstringgrid", "pub.pas"));
    public.insert("tpanel".to_string(), entry("TPanel", "tcustomcontrol", "vcl.pas"));
    public.insert("tcfedit".to_string(), entry("TCFEdit", "tedit", "pub.pas"));
    let mut local: TypeParents = StrMap::new();
    local.insert("tcfgrid".to_string(), entry("TCFGrid", "tdbgrid", "local.pas"));
    local.insert("tloose".to_string(), entry("TLoose", "tnothing", "local.pas"));

    let entries = build_aliases(Some(public), Some(local));
    assert_eq!(entries.len(), 2);
    assert_eq!(entries[0].custom_type, "TCFGrid");
    assert_eq!(entries[0].vcl_base, "TDBGrid");
    assert_eq!(entries[0].source_file, "local.pas");
    assert_eq!(entries[1].custom_type, "TCFEdit");
    assert_eq!(entries[1].vcl_base, "TEdit");
}

#[test]
fn build_aliases_without_databases_is_empty() {
    assert!(build_aliases(None, None).is_empty());
}

#[test]
fn resolve_lower_key_takes_the_key_as_given() {
    let mut parents: TypeParents = StrMap::new();
    parents.insert(
        "tcfpainel".to_string(),
        entry("TCFPainel", "tpanel", "cfpainel.pas"),
    );
    let e = resolve_lower_key("tcfpainel".to_string(), &parents).unwrap();
    assert_eq!(e.depth, 1);
    assert!(resolve_lower_key("TCFPainel".to_string(), &parents).is_none());
}

#[test]
fn resolve_ignores_ascii_case_of_the_name() {
    let mut parents: TypeParents = StrMap::new();
    parents.insert(
        "tcfpainel".to_string(),
        entry("TCFPainel", "tpanel", "cfpainel.pas"),
    );
    let a = resolve_to_vcl_base("TCFPAINEL", &parents);
    let b = resolve_to_vcl_base("tcfpainel", &parents);
    assert_eq!(a, b);
    assert!(a.is_some());
}

#[test]
fn each_key_gives_at_most_one_alias() {
    let mut public: TypeParents = StrMap::new();
    public.insert("ta".to_string(), entry("TA", "tpanel", "a.pas"));
    let mut local: TypeParents = StrMap::new();
    local.insert("ta".to_string(), entry("TA", "tedit", "b.pas"));
    local.insert("tb".to_string(), entry("TB", "ta", "b.pas"));
    let entries = build_aliases(Some(public), Some(local));
    assert_eq!(entries.len(), 2);
    assert_eq!(entries[0].vcl_base, "TEdit");
    assert_eq!(entries[1].vcl_base, "TEdit");
    assert_eq!(entries[1].depth, 2);
}

#[test]
fn aliases_from_rows_are_distinct_up_to_case_and_never_base_types() {
    let public = type_parents_from_rows(vec![
        Some(entry("TCFEdit", "TEdit", "pub.pas")),
        Some(entry("TForm", "TCustomForm", "vcl.pas")),
    ]);
    let local = type_parents_from_rows(vec![
        Some(entry("tcfedit", "TMemo", "local.pas")),
        Some(entry("TCFGrid", "TDBGrid", "local.pas")),
    ]);
    let entries = build_aliases(Some(public), Some(local));
    let names: Vec<&str> = entries.iter().map(|e| e.custom_type.as_str()).collect();
    assert_eq!(names, vec!["tcfedit", "TCFGrid"]);
    assert_eq!(entries[0].vcl_base, "TMemo");
    assert_eq!(entries[0].source_file, "local.pas");
    for e in &entries {
        assert!(!is_vcl_base(&e.custom_type));
    }
}

#[test]
fn rows_keep_non_ascii_parents_non_empty() {
    let map = type_parents_from_rows(vec![Some(entry("TÉcran", "TFENÊTRE", "x.pas"))]);
    assert_eq!(map.len(), 1);
    let (name, parent, file) = map.get("técran").unwrap();
    assert_eq!(name, "TÉcran");
    assert_eq!(parent, "tfenêtre");
    assert_eq!(file, "x.pas");
}
