use dfm_scanner::normalizer::{anchor_sides, get_defaults, normalize_props};
use dfm_scanner::parser::{parse_dfm, PropValue};

#[test]
fn test_defaults_applied() {
    let input = r#"object frmMain: TForm
  Width = 800
  Height = 600
  object btn1: TButton
    Left = 10
    Top = 10
  end
end"#;
    let mut comp = parse_dfm(input).unwrap();
    normalize_props(&mut comp);

    let btn = &comp.children[0];
    assert!(matches!(btn.props.get("Width"), Some(PropValue::Integer(n)) if *n as f64 == 75.0));
    assert!(matches!(btn.props.get("Height"), Some(PropValue::Integer(n)) if *n as f64 == 25.0));
    assert!(matches!(btn.props.get("Color"), Some(PropValue::Str(s)) if s == "clBtnFace"));
}

#[test]
fn test_anchor_right() {
    let input = r#"object frmMain: TForm
  Width = 800
  Height = 600
  object edt1: TEdit
    Left = 10
    Top = 10
    Width = 780
    Anchors = [akLeft, akTop, akRight]
  end
end"#;
    let mut comp = parse_dfm(input).unwrap();
    normalize_props(&mut comp);

    let edt = &comp.children[0];
    let sides = anchor_sides(&edt.props);
    assert!(sides.right);
    assert!(!sides.bottom);
    assert_eq!(comp.props.get("Width"), Some(&PropValue::Integer(800)));
    assert_eq!(edt.props.get("Left"), Some(&PropValue::Integer(10)));
    assert_eq!(edt.props.get("Width"), Some(&PropValue::Integer(780)));
}

#[test]
fn defaults_do_not_override_and_apply_twice_the_same() {
    let mut comp = parse_dfm("object l: TLabel\n  Color = clRed\n  Visible = False\nend\n").unwrap();
    normalize_props(&mut comp);
    assert_eq!(comp.props.get("Color"), Some(&PropValue::Str("clRed".to_string())));
    assert_eq!(comp.props.get("Visible"), Some(&PropValue::Bool(false)));
    assert!(comp.props.get("Width").is_none());
    assert_eq!(comp.props.get("Left"), Some(&PropValue::Integer(0)));
    assert_eq!(comp.props.get("Font.Size"), Some(&PropValue::Integer(8)));
    assert_eq!(comp.props.get("Font.Style"), Some(&PropValue::List(vec![])));
    assert_eq!(comp.props.get("Align"), Some(&PropValue::Str("alNone".to_string())));
    let n = comp.props.len();
    normalize_props(&mut comp);
    assert_eq!(comp.props.len(), n);
    assert_eq!(comp.props.get("Color"), Some(&PropValue::Str("clRed".to_string())));
}

#[test]
fn defaults_table() {
    let d = get_defaults("TPageControl");
    assert_eq!((d.width, d.height, d.color), (Some(289), Some(193), "clBtnFace"));
    let d = get_defaults("TEdit");
    assert_eq!((d.width, d.height, d.color), (Some(121), Some(21), "clWindow"));
    let d = get_defaults("TTabSheet");
    assert_eq!((d.width, d.height, d.color), (None, None, "clBtnFace"));
    let d = get_defaults("tform");
    assert_eq!((d.width, d.height, d.color), (None, None, "clBtnFace"));
}

#[test]
fn anchors_default_when_missing_or_not_a_list() {
    let mut comp = parse_dfm("object p: TPanel\n  Anchors = akRight\nend\n").unwrap();
    let sides = anchor_sides(&comp.props);
    assert!(!sides.right && !sides.bottom);
    comp = parse_dfm("object p: TPanel\n  Anchors = [akBottom,akRight]\nend\n").unwrap();
    let sides = anchor_sides(&comp.props);
    assert!(sides.right && sides.bottom);
}
