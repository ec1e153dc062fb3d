use dfm_scanner::parser::{parse_dfm, parse_header, parse_property, parse_value, PropValue};

#[test]
fn test_simple_form() {
    let input = r#"object frmCadastro: TForm
  Left = 100
  Top = 100
  Width = 800
  Height = 600
  Caption = 'Cadastro de Clientes'
  object pnlTopo: TPanel
    Left = 0
    Top = 0
    Width = 800
    Height = 50
    Align = alTop
    object lblTitulo: TLabel
      Left = 8
      Top = 16
      Caption = 'Clientes'
      Anchors = [akLeft, akTop]
    end
  end
end"#;
    let comp = parse_dfm(input).unwrap();
    assert_eq!(comp.comp_type, "TForm");
    assert_eq!(comp.name, "frmCadastro");
    assert_eq!(comp.children.len(), 1);

    let panel = &comp.children[0];
    assert_eq!(panel.comp_type, "TPanel");
    assert_eq!(panel.children.len(), 1);

    let label = &panel.children[0];
    assert_eq!(label.comp_type, "TLabel");
}

#[test]
fn test_parse_values() {
    assert!(matches!(parse_value("100"), PropValue::Integer(n) if n as f64 == 100.0));
    assert!(matches!(parse_value("true"), PropValue::Bool(true)));
    assert!(matches!(parse_value("false"), PropValue::Bool(false)));
    assert!(matches!(parse_value("'Hello'"), PropValue::Str(ref s) if s == "Hello"));
    assert!(matches!(parse_value("alTop"), PropValue::Str(ref s) if s == "alTop"));

    if let PropValue::List(items) = parse_value("[akLeft, akTop]") {
        assert_eq!(items, vec!["akLeft", "akTop"]);
    } else {
        panic!("Expected List");
    }
}

#[test]
fn values_of_every_kind() {
    assert_eq!(parse_value("TRUE"), PropValue::Bool(true));
    assert_eq!(parse_value("False"), PropValue::Bool(false));
    assert_eq!(parse_value("[]"), PropValue::List(vec![]));
    assert_eq!(parse_value("[  ]"), PropValue::List(vec![]));
    assert_eq!(
        parse_value("[a,,b ]"),
        PropValue::List(vec!["a".to_string(), "".to_string(), "b".to_string()])
    );
    assert_eq!(parse_value("''"), PropValue::Str("".to_string()));
    assert_eq!(parse_value("'"), PropValue::Str("'".to_string()));
    assert_eq!(parse_value("-42"), PropValue::Integer(-42));
    assert_eq!(parse_value("+7"), PropValue::Integer(7));
    assert_eq!(
        parse_value("-9223372036854775808"),
        PropValue::Integer(i64::MIN)
    );
    assert_eq!(
        parse_value("9223372036854775807"),
        PropValue::Integer(i64::MAX)
    );
    assert_eq!(
        parse_value("9223372036854775808"),
        PropValue::Real("9223372036854775808".to_string())
    );
    assert_eq!(parse_value("1.5"), PropValue::Real("1.5".to_string()));
    assert_eq!(parse_value(".5"), PropValue::Real(".5".to_string()));
    assert_eq!(parse_value("5."), PropValue::Real("5.".to_string()));
    assert_eq!(parse_value("1E-3"), PropValue::Real("1E-3".to_string()));
    assert_eq!(parse_value("-inf"), PropValue::Real("-inf".to_string()));
    assert_eq!(parse_value("NaN"), PropValue::Real("NaN".to_string()));
    assert_eq!(parse_value("."), PropValue::Str(".".to_string()));
    assert_eq!(parse_value("1e"), PropValue::Str("1e".to_string()));
    assert_eq!(parse_value("-"), PropValue::Str("-".to_string()));
    assert_eq!(parse_value("1.2.3"), PropValue::Str("1.2.3".to_string()));
    assert_eq!(parse_value("clBtnFace"), PropValue::Str("clBtnFace".to_string()));
}

#[test]
fn real_text_parses_as_float() {
    for text in ["1.5", ".5", "5.", "1E-3", "-inf", "NaN", "+2.5e+10", "9223372036854775808"] {
        match parse_value(text) {
            PropValue::Real(s) => assert!(s.parse::<f64>().is_ok()),
            other => panic!("{:?}", other),
        }
    }
}

#[test]
fn headers_and_properties() {
    assert_eq!(
        parse_header("object  frmMain :  TForm "),
        Some(("frmMain".to_string(), "TForm".to_string()))
    );
    assert_eq!(
        parse_header("inherited frmChild: TfrmBase"),
        Some(("frmChild".to_string(), "TfrmBase".to_string()))
    );
    assert_eq!(parse_header("object frmMain"), None);
    assert_eq!(parse_header("objects x: T"), None);
    assert_eq!(
        parse_property("  Caption = 'a = b' "),
        Some(("Caption".to_string(), "'a = b'".to_string()))
    );
    assert_eq!(parse_property("end"), None);
}

#[test]
fn blocks_are_skipped_and_later_values_win() {
    let input = "object f: TForm\r\n  Left = 1\r\n  Picture.Data = {\r\n    0A0B\r\n    0C}\r\n  Items.Strings = (\r\n    'a'\r\n    'b')\r\n  Left = 2\r\n  inherited btn: TButton\r\n  end\r\n  object bad\r\n  Top = 3\r\nend\r\n";
    let comp = parse_dfm(input).unwrap();
    assert_eq!(comp.props.get("Left"), Some(&PropValue::Integer(2)));
    assert_eq!(comp.props.get("Top"), Some(&PropValue::Integer(3)));
    assert!(comp.props.get("Picture.Data").is_none());
    assert!(comp.props.get("Items.Strings").is_none());
    assert_eq!(comp.props.len(), 2);
    assert_eq!(comp.children.len(), 1);
    assert_eq!(comp.children[0].name, "btn");
    assert_eq!(comp.children[0].comp_type, "TButton");
}

#[test]
fn no_component_is_none() {
    assert!(parse_dfm("").is_none());
    assert!(parse_dfm("Left = 1\nend\n").is_none());
    assert!(parse_dfm("object broken\n").is_none());
}

#[test]
fn leading_lines_are_skipped_and_end_is_optional() {
    let comp = parse_dfm("garbage\n\nobject a: TPanel\n  Width = 3").unwrap();
    assert_eq!(comp.name, "a");
    assert_eq!(comp.props.get("Width"), Some(&PropValue::Integer(3)));
}

#[test]
fn indentation_does_not_matter() {
    let a = parse_dfm("object a: TPanel\n  Width = 3\n  object b: TLabel\n  end\nend\n").unwrap();
    let b = parse_dfm("\tobject a: TPanel\r\nWidth = 3   \r\n object b: TLabel\nend\n      end").unwrap();
    assert_eq!(a.name, b.name);
    assert_eq!(a.props.get("Width"), b.props.get("Width"));
    assert_eq!(a.children.len(), b.children.len());
    assert_eq!(a.children[0].comp_type, b.children[0].comp_type);
}

#[test]
fn summary_lines_indent_name_and_type() {
    let comp = parse_dfm("object frmMain: TForm\n  object btn: TButton\n  end\nend\n").unwrap();
    assert_eq!(dfm_scanner::parser::summary_line(&comp, 0), "frmMain: TForm");
    assert_eq!(dfm_scanner::parser::summary_line(&comp.children[0], 2), "  btn: TButton");
}

#[test]
fn summary_of_tree_is_preorder_two_spaces_per_level() {
    let input = "object frmMain: TForm\n  object pnl: TPanel\n    object lbl: TLabel\n    end\n  end\n  object btn: TButton\n  end\nend\n";
    let comp = parse_dfm(input).unwrap();
    let lines = dfm_scanner::parser::summary_lines(&comp, 0);
    assert_eq!(
        lines,
        vec![
            "frmMain: TForm".to_string(),
            "  pnl: TPanel".to_string(),
            "    lbl: TLabel".to_string(),
            "  btn: TButton".to_string(),
        ]
    );
    let deeper = dfm_scanner::parser::summary_lines(&comp.children[1], 4);
    assert_eq!(deeper, vec!["    btn: TButton".to_string()]);
}
