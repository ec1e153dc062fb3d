//! Filling in the default properties of components.
use vstd::prelude::*;
use crate::parser::{component_view, props_view, Component, PropValue, Props, SpecComponent, SpecValue};
use crate::text::{chars_equal, chars_of};

verus! {

broadcast use vstd::string::group_string_axioms;

/// The default size and colour of a component type. Sizes are whole pixels.
pub struct ComponentDefaults {
    pub width: Option<i64>,
    pub height: Option<i64>,
    pub color: &'static str,
}

/// The defaults `(width, height, colour)` for a component type.
pub open spec fn spec_defaults(t: Seq<char>) -> (Option<int>, Option<int>, Seq<char>) {
    if t == "TForm"@ {
        (Some(640), Some(480), "clBtnFace"@)
    } else if t == "TPanel"@ {
        (Some(100), Some(41), "clBtnFace"@)
    } else if t == "TGroupBox"@ {
        (Some(185), Some(105), "clBtnFace"@)
    } else if t == "TLabel"@ {
        (None, None, "clBtnFace"@)
    } else if t == "TEdit"@ {
        (Some(121), Some(21), "clWindow"@)
    } else if t == "TMemo"@ {
        (Some(185), Some(89), "clWindow"@)
    } else if t == "TButton"@ {
        (Some(75), Some(25), "clBtnFace"@)
    } else if t == "TBitBtn"@ {
        (Some(75), Some(25), "clBtnFace"@)
    } else if t == "TCheckBox"@ {
        (Some(97), Some(17), "clBtnFace"@)
    } else if t == "TRadioButton"@ {
        (Some(113), Some(17), "clBtnFace"@)
    } else if t == "TComboBox"@ {
        (Some(145), Some(21), "clWindow"@)
    } else if t == "TListBox"@ {
        (Some(121), Some(97), "clWindow"@)
    } else if t == "TStringGrid"@ {
        (Some(185), Some(105), "clWindow"@)
    } else if t == "TPageControl"@ {
        (Some(289), Some(193), "clBtnFace"@)
    } else if t == "TTabSheet"@ {
        (None, None, "clBtnFace"@)
    } else if t == "TImage"@ {
        (Some(105), Some(105), "clBtnFace"@)
    } else {
        (None, None, "clBtnFace"@)
    }
}

/// The value of an optional size.
pub open spec fn size_view(s: Option<i64>) -> Option<int> {
    match s {
        Some(n) => Some(n as int),
        None => None,
    }
}

/// Whether `t` is the type named `name`.
fn is_type(t: &Vec<char>, name: &str) -> (b: bool)
    ensures
        b == (t@ == name@),
{
    chars_equal(t, &chars_of(name))
}

/// The defaults for a component type.
pub fn get_defaults(comp_type: &str) -> (d: ComponentDefaults)
    ensures
        (size_view(d.width), size_view(d.height), d.color@) == spec_defaults(comp_type@),
{
    let t = chars_of(comp_type);
    let (w, h, c): (i64, i64, &'static str) = if is_type(&t, "TForm") {
        (640, 480, "clBtnFace")
    } else if is_type(&t, "TPanel") {
        (100, 41, "clBtnFace")
    } else if is_type(&t, "TGroupBox") {
        (185, 105, "clBtnFace")
    } else if is_type(&t, "TLabel") {
        return ComponentDefaults { width: None, height: None, color: "clBtnFace" };
    } else if is_type(&t, "TEdit") {
        (121, 21, "clWindow")
    } else if is_type(&t, "TMemo") {
        (185, 89, "clWindow")
    } else if is_type(&t, "TButton") {
        (75, 25, "clBtnFace")
    } else if is_type(&t, "TBitBtn") {
        (75, 25, "clBtnFace")
    } else if is_type(&t, "TCheckBox") {
        (97, 17, "clBtnFace")
    } else if is_type(&t, "TRadioButton") {
        (113, 17, "clBtnFace")
    } else if is_type(&t, "TComboBox") {
        (145, 21, "clWindow")
    } else if is_type(&t, "TListBox") {
        (121, 97, "clWindow")
    } else if is_type(&t, "TStringGrid") {
        (185, 105, "clWindow")
    } else if is_type(&t, "TPageControl") {
        (289, 193, "clBtnFace")
    } else if is_type(&t, "TTabSheet") {
        return ComponentDefaults { width: None, height: None, color: "clBtnFace" };
    } else if is_type(&t, "TImage") {
        (105, 105, "clBtnFace")
    } else {
        return ComponentDefaults { width: None, height: None, color: "clBtnFace" };
    };
    ComponentDefaults { width: Some(w), height: Some(h), color: c }
}

/// `m` with `k` set to `v` unless `k` is already present.
pub open spec fn with_default(m: Map<Seq<char>, SpecValue>, k: Seq<char>, v: SpecValue) -> Map<
    Seq<char>,
    SpecValue,
> {
    if m.dom().contains(k) {
        m
    } else {
        m.insert(k, v)
    }
}

/// `m` with `k` set to the number `n`, if `n` is given and `k` is absent.
pub open spec fn with_size_default(m: Map<Seq<char>, SpecValue>, k: Seq<char>, n: Option<int>) -> Map<
    Seq<char>,
    SpecValue,
> {
    match n {
        Some(v) => with_default(m, k, SpecValue::Integer(v)),
        None => m,
    }
}

/// The properties of a component of type `t` once the defaults are filled
/// in: each default applies only where the property is missing.
pub open spec fn props_with_defaults(t: Seq<char>, p: Map<Seq<char>, SpecValue>) -> Map<
    Seq<char>,
    SpecValue,
> {
    let d = spec_defaults(t);
    let p = with_default(p, "Left"@, SpecValue::Integer(0));
    let p = with_default(p, "Top"@, SpecValue::Integer(0));
    let p = with_size_default(p, "Width"@, d.0);
    let p = with_size_default(p, "Height"@, d.1);
    let p = with_default(p, "Color"@, SpecValue::Str(d.2));
    let p = with_default(p, "Align"@, SpecValue::Str("alNone"@));
    let p = with_default(p, "Anchors"@, SpecValue::List(seq!["akLeft"@, "akTop"@]));
    let p = with_default(p, "Visible"@, SpecValue::Bool(true));
    let p = with_default(p, "Enabled"@, SpecValue::Bool(true));
    let p = with_default(p, "Font.Size"@, SpecValue::Integer(8));
    with_default(p, "Font.Style"@, SpecValue::List(Seq::empty()))
}

/// A component tree with the defaults filled in at every level.
pub open spec fn spec_normalize(c: SpecComponent) -> SpecComponent
    decreases c,
{
    SpecComponent {
        comp_type: c.comp_type,
        name: c.name,
        props: props_with_defaults(c.comp_type, c.props),
        children: Seq::new(
            c.children.len(),
            |i: int|
                if 0 <= i < c.children.len() {
                    spec_normalize(c.children[i])
                } else {
                    arbitrary()
                },
        ),
    }
}

/// Sets `key` to `value` unless `key` is already present.
pub fn set_default(props: &mut Props, key: &str, value: PropValue)
    ensures
        props_view(*final(props)) == with_default(props_view(*old(props)), key@, value@),
{
    if !props.contains_key(key) {
        let ghost before = props_view(*props);
        props.insert(key.to_string(), value);
        assert(props_view(*props) =~= before.insert(key@, value@));
    }
}

/// A list value holding `items`.
fn list_of(items: Vec<&str>) -> (v: PropValue)
    ensures
        v@ == SpecValue::List(items@.map_values(|s: &str| s@)),
{
    let mut out: Vec<String> = Vec::new();
    let mut i: usize = 0;
    while i < items.len()
        invariant
            i <= items@.len(),
            out@.map_values(|s: String| s@) == items@.map_values(|s: &str| s@).take(i as int),
        decreases items@.len() - i,
    {
        let ghost o0 = out@;
        out.push(items[i].to_string());
        assert(out@.map_values(|s: String| s@) =~= o0.map_values(|s: String| s@).push(items@[i as int]@));
        assert(items@.map_values(|s: &str| s@).take(i + 1) =~= items@.map_values(|s: &str| s@).take(i as int).push(items@[i as int]@));
        i = i + 1;
    }
    assert(items@.map_values(|s: &str| s@).take(items@.len() as int) =~= items@.map_values(|s: &str| s@));
    PropValue::List(out)
}

/// Fills in the default properties of `comp` and of every component nested
/// in it. A property that is present keeps its value.
pub fn normalize_props(comp: &mut Component)
    ensures
        component_view(*final(comp)) == spec_normalize(component_view(*old(comp))),
    decreases *old(comp),
{
    let ghost c0 = component_view(*comp);
    let d = get_defaults(comp.comp_type.as_str());
    let ghost sd = spec_defaults(c0.comp_type);
    assert(size_view(d.width) == sd.0 && size_view(d.height) == sd.1 && d.color@ == sd.2);
    let p = &mut comp.props;
    set_default(p, "Left", PropValue::Integer(0));
    set_default(p, "Top", PropValue::Integer(0));
    match d.width {
        Some(w) => set_default(p, "Width", PropValue::Integer(w)),
        None => {},
    }
    match d.height {
        Some(h) => set_default(p, "Height", PropValue::Integer(h)),
        None => {},
    }
    set_default(p, "Color", PropValue::Str(d.color.to_string()));
    set_default(p, "Align", PropValue::Str("alNone".to_string()));
    let anchor_names = vec!["akLeft", "akTop"];
    assert(anchor_names@.map_values(|s: &str| s@) =~= seq!["akLeft"@, "akTop"@]);
    let anchors = list_of(anchor_names);
    set_default(p, "Anchors", anchors);
    set_default(p, "Visible", PropValue::Bool(true));
    set_default(p, "Enabled", PropValue::Bool(true));
    set_default(p, "Font.Size", PropValue::Integer(8));
    let no_styles: Vec<&str> = Vec::new();
    assert(no_styles@.map_values(|s: &str| s@) =~= Seq::<Seq<char>>::empty());
    let style = list_of(no_styles);
    set_default(p, "Font.Style", style);
    assert(props_view(comp.props) == props_with_defaults(c0.comp_type, c0.props));
    let mut rest: Vec<Component> = Vec::new();
    std::mem::swap(&mut rest, &mut comp.children);
    let ghost orig = rest@;
    let mut done: Vec<Component> = Vec::new();
    while rest.len() > 0
        invariant
            orig == old(comp).children@,
            done@.len() + rest@.len() == orig.len(),
            rest@ == orig.skip(done@.len() as int),
            forall|i: int|
                0 <= i < done@.len() ==> component_view(#[trigger] done@[i]) == spec_normalize(
                    component_view(orig[i]),
                ),
        decreases rest@.len(),
    {
        let ghost k = done@.len() as int;
        let ghost r0 = rest@;
        let mut c = rest.remove(0);
        assert(r0[0] == orig[k]);
        assert(c == old(comp).children@[k]);
        normalize_props(&mut c);
        done.push(c);
        assert(rest@ =~= orig.skip(done@.len() as int));
    }
    comp.children = done;
    assert(component_view(*comp).children =~= spec_normalize(c0).children) by {
        assert forall|i: int| 0 <= i < orig.len() implies component_view(*comp).children[i]
            == spec_normalize(c0).children[i] by {
            assert(c0.children[i] == component_view(orig[i]));
        }
    }
}

/// The anchors of a component: its `Anchors` list, or `akLeft, akTop` when
/// it has none.
pub open spec fn spec_anchors(p: Map<Seq<char>, SpecValue>) -> Seq<Seq<char>> {
    if p.dom().contains("Anchors"@) {
        match p["Anchors"@] {
            SpecValue::List(items) => items,
            _ => seq!["akLeft"@, "akTop"@],
        }
    } else {
        seq!["akLeft"@, "akTop"@]
    }
}

/// The sides, right and bottom, at which a component keeps its distance to
/// its parent's edge.
pub struct AnchorSides {
    pub right: bool,
    pub bottom: bool,
}

/// Whether `items` holds `name`.
fn has_item(items: &Vec<String>, name: &str) -> (b: bool)
    ensures
        b == items@.map_values(|s: String| s@).contains(name@),
{
    let target = name.to_string();
    let mut i: usize = 0;
    while i < items.len()
        invariant
            i <= items@.len(),
            target@ == name@,
            forall|j: int| 0 <= j < i ==> (#[trigger] items@[j])@ != name@,
        decreases items@.len() - i,
    {
        if items[i] == target {
            assert(items@.map_values(|s: String| s@)[i as int] == name@);
            return true;
        }
        i = i + 1;
    }
    let ghost names = items@.map_values(|s: String| s@);
    assert forall|j: int| 0 <= j < names.len() implies #[trigger] names[j] != name@ by {
        assert(names[j] == items@[j]@);
    }
    false
}

/// Whether the anchors of a component with properties `props` include
/// `akRight` and `akBottom`.
pub fn anchor_sides(props: &Props) -> (r: AnchorSides)
    ensures
        r.right == spec_anchors(props_view(*props)).contains("akRight"@),
        r.bottom == spec_anchors(props_view(*props)).contains("akBottom"@),
{
    match props.get("Anchors") {
        Some(PropValue::List(items)) => AnchorSides {
            right: has_item(items, "akRight"),
            bottom: has_item(items, "akBottom"),
        },
        _ => {
            let defaults = vec!["akLeft".to_string(), "akTop".to_string()];
            assert(defaults@.map_values(|s: String| s@) =~= seq!["akLeft"@, "akTop"@]);
            AnchorSides { right: has_item(&defaults, "akRight"), bottom: has_item(&defaults, "akBottom") }
        },
    }
}

// ---------------------------------------------------------------------------
// Laws
// ---------------------------------------------------------------------------

/// Filling in defaults keeps every property that was already present, with
/// its value.
pub proof fn law_defaults_keep_existing(t: Seq<char>, p: Map<Seq<char>, SpecValue>)
    ensures
        p.submap_of(props_with_defaults(t, p)),
{
    let d = spec_defaults(t);
    let p1 = with_default(p, "Left"@, SpecValue::Integer(0));
    let p2 = with_default(p1, "Top"@, SpecValue::Integer(0));
    let p3 = with_size_default(p2, "Width"@, d.0);
    let p4 = with_size_default(p3, "Height"@, d.1);
    let p5 = with_default(p4, "Color"@, SpecValue::Str(d.2));
    let p6 = with_default(p5, "Align"@, SpecValue::Str("alNone"@));
    let p7 = with_default(p6, "Anchors"@, SpecValue::List(seq!["akLeft"@, "akTop"@]));
    let p8 = with_default(p7, "Visible"@, SpecValue::Bool(true));
    let p9 = with_default(p8, "Enabled"@, SpecValue::Bool(true));
    let p10 = with_default(p9, "Font.Size"@, SpecValue::Integer(8));
    let p11 = with_default(p10, "Font.Style"@, SpecValue::List(Seq::empty()));
    assert(p11 == props_with_defaults(t, p));
    assert forall|k: Seq<char>| #[trigger] p.dom().contains(k) implies p11.dom().contains(k)
        && p11[k] == p[k] by {
        assert(p1.dom().contains(k) && p1[k] == p[k]);
        assert(p2.dom().contains(k) && p2[k] == p[k]);
        assert(p3.dom().contains(k) && p3[k] == p[k]);
        assert(p4.dom().contains(k) && p4[k] == p[k]);
        assert(p5.dom().contains(k) && p5[k] == p[k]);
        assert(p6.dom().contains(k) && p6[k] == p[k]);
        assert(p7.dom().contains(k) && p7[k] == p[k]);
        assert(p8.dom().contains(k) && p8[k] == p[k]);
        assert(p9.dom().contains(k) && p9[k] == p[k]);
        assert(p10.dom().contains(k) && p10[k] == p[k]);
    }
}

/// Filling in defaults a second time changes nothing.
pub proof fn law_defaults_idempotent(t: Seq<char>, p: Map<Seq<char>, SpecValue>)
    ensures
        props_with_defaults(t, props_with_defaults(t, p)) == props_with_defaults(t, p),
{
    let q = props_with_defaults(t, p);
    law_defaults_keep_existing(t, p);
    let d = spec_defaults(t);
    let p1 = with_default(p, "Left"@, SpecValue::Integer(0));
    let p2 = with_default(p1, "Top"@, SpecValue::Integer(0));
    let p3 = with_size_default(p2, "Width"@, d.0);
    let p4 = with_size_default(p3, "Height"@, d.1);
    let p5 = with_default(p4, "Color"@, SpecValue::Str(d.2));
    let p6 = with_default(p5, "Align"@, SpecValue::Str("alNone"@));
    let p7 = with_default(p6, "Anchors"@, SpecValue::List(seq!["akLeft"@, "akTop"@]));
    let p8 = with_default(p7, "Visible"@, SpecValue::Bool(true));
    let p9 = with_default(p8, "Enabled"@, SpecValue::Bool(true));
    let p10 = with_default(p9, "Font.Size"@, SpecValue::Integer(8));
    law_defaults_keep_existing(t, p1);
    law_defaults_keep_existing(t, p2);
    law_defaults_keep_existing(t, p3);
    law_defaults_keep_existing(t, p4);
    law_defaults_keep_existing(t, p5);
    law_defaults_keep_existing(t, p6);
    law_defaults_keep_existing(t, p7);
    law_defaults_keep_existing(t, p8);
    law_defaults_keep_existing(t, p9);
    law_defaults_keep_existing(t, p10);
    assert(p1.submap_of(p2) && p2.submap_of(p3) && p3.submap_of(p4) && p4.submap_of(p5));
    assert(p5.submap_of(p6) && p6.submap_of(p7) && p7.submap_of(p8) && p8.submap_of(p9));
    assert(p9.submap_of(p10) && p10.submap_of(q));
    assert(q.dom().contains("Left"@));
    assert(q.dom().contains("Top"@));
    assert(d.0 is Some ==> q.dom().contains("Width"@));
    assert(d.1 is Some ==> q.dom().contains("Height"@));
    assert(q.dom().contains("Color"@));
    assert(q.dom().contains("Align"@));
    assert(q.dom().contains("Anchors"@));
    assert(q.dom().contains("Visible"@));
    assert(q.dom().contains("Enabled"@));
    assert(q.dom().contains("Font.Size"@));
    assert(q.dom().contains("Font.Style"@));
}

/// Normalizing a normalized component tree changes nothing.
pub proof fn law_normalize_idempotent(c: SpecComponent)
    ensures
        spec_normalize(spec_normalize(c)) == spec_normalize(c),
    decreases c,
{
    let n = spec_normalize(c);
    law_defaults_idempotent(c.comp_type, c.props);
    assert forall|i: int| 0 <= i < c.children.len() implies spec_normalize(n.children[i])
        == n.children[i] by {
        law_normalize_idempotent(c.children[i]);
    }
    assert(spec_normalize(n).children =~= n.children);
}

/// The lengths of the property names and component types that the defaults
/// name, and the distinctness of those of equal length.
proof fn lemma_default_names_distinct()
    ensures
        "Left"@.len() == 4,
        "Top"@.len() == 3,
        "Width"@.len() == 5,
        "Height"@.len() == 6,
        "Color"@.len() == 5,
        "Align"@.len() == 5,
        "Anchors"@.len() == 7,
        "Visible"@.len() == 7,
        "Enabled"@.len() == 7,
        "Font.Size"@.len() == 9,
        "Font.Style"@.len() == 10,
        "TForm"@.len() == 5,
        "TPanel"@.len() == 6,
        "TGroupBox"@.len() == 9,
        "TLabel"@.len() == 6,
        "TEdit"@.len() == 5,
        "TMemo"@.len() == 5,
        "TButton"@.len() == 7,
        "TBitBtn"@.len() == 7,
        "TCheckBox"@.len() == 9,
        "TRadioButton"@.len() == 12,
        "TComboBox"@.len() == 9,
        "TListBox"@.len() == 8,
        "TStringGrid"@.len() == 11,
        "TPageControl"@.len() == 12,
        "TTabSheet"@.len() == 9,
        "TImage"@.len() == 6,
        "Width"@ != "Color"@,
        "Width"@ != "Align"@,
        "Color"@ != "Align"@,
        "Anchors"@ != "Visible"@,
        "Anchors"@ != "Enabled"@,
        "Visible"@ != "Enabled"@,
        "TForm"@ != "TEdit"@,
        "TForm"@ != "TMemo"@,
        "TPanel"@ != "TLabel"@,
        "TPanel"@ != "TImage"@,
        "TGroupBox"@ != "TCheckBox"@,
        "TGroupBox"@ != "TComboBox"@,
        "TGroupBox"@ != "TTabSheet"@,
        "TLabel"@ != "TImage"@,
        "TEdit"@ != "TMemo"@,
        "TButton"@ != "TBitBtn"@,
        "TCheckBox"@ != "TComboBox"@,
        "TCheckBox"@ != "TTabSheet"@,
        "TRadioButton"@ != "TPageControl"@,
        "TComboBox"@ != "TTabSheet"@,
{
    reveal_strlit("Left");
    reveal_strlit("Top");
    reveal_strlit("Width");
    reveal_strlit("Height");
    reveal_strlit("Color");
    reveal_strlit("Align");
    reveal_strlit("Anchors");
    reveal_strlit("Visible");
    reveal_strlit("Enabled");
    reveal_strlit("Font.Size");
    reveal_strlit("Font.Style");
    reveal_strlit("TForm");
    reveal_strlit("TPanel");
    reveal_strlit("TGroupBox");
    reveal_strlit("TLabel");
    reveal_strlit("TEdit");
    reveal_strlit("TMemo");
    reveal_strlit("TButton");
    reveal_strlit("TBitBtn");
    reveal_strlit("TCheckBox");
    reveal_strlit("TRadioButton");
    reveal_strlit("TComboBox");
    reveal_strlit("TListBox");
    reveal_strlit("TStringGrid");
    reveal_strlit("TPageControl");
    reveal_strlit("TTabSheet");
    reveal_strlit("TImage");
    assert("Width"@[0] != "Color"@[0]);
    assert("Width"@[0] != "Align"@[0]);
    assert("Color"@[0] != "Align"@[0]);
    assert("Anchors"@[0] != "Visible"@[0]);
    assert("Anchors"@[0] != "Enabled"@[0]);
    assert("Visible"@[0] != "Enabled"@[0]);
    assert("TForm"@[1] != "TEdit"@[1]);
    assert("TForm"@[1] != "TMemo"@[1]);
    assert("TPanel"@[1] != "TLabel"@[1]);
    assert("TPanel"@[1] != "TImage"@[1]);
    assert("TGroupBox"@[1] != "TCheckBox"@[1]);
    assert("TGroupBox"@[1] != "TComboBox"@[1]);
    assert("TGroupBox"@[1] != "TTabSheet"@[1]);
    assert("TLabel"@[1] != "TImage"@[1]);
    assert("TEdit"@[1] != "TMemo"@[1]);
    assert("TButton"@[2] != "TBitBtn"@[2]);
    assert("TCheckBox"@[2] != "TComboBox"@[2]);
    assert("TCheckBox"@[1] != "TTabSheet"@[1]);
    assert("TRadioButton"@[1] != "TPageControl"@[1]);
    assert("TComboBox"@[1] != "TTabSheet"@[1]);
}

/// Filling in another key keeps what a key was filled with.
proof fn lemma_other_default(
    p: Map<Seq<char>, SpecValue>,
    q: Map<Seq<char>, SpecValue>,
    k: Seq<char>,
    k2: Seq<char>,
    v2: SpecValue,
    n2: Option<int>,
)
    requires
        k != k2,
    ensures
        forall|v: SpecValue|
            #[trigger] filled_with(p, q, k, v) ==> filled_with(p, with_default(q, k2, v2), k, v)
                && filled_with(p, with_size_default(q, k2, n2), k, v),
        left_as_is(p, q, k) ==> left_as_is(p, with_default(q, k2, v2), k) && left_as_is(
            p,
            with_size_default(q, k2, n2),
            k,
        ),
{
}

/// `q` gives `k` the value that `p` has for it, or `v` when `p` lacks `k`.
pub open spec fn filled_with(
    p: Map<Seq<char>, SpecValue>,
    q: Map<Seq<char>, SpecValue>,
    k: Seq<char>,
    v: SpecValue,
) -> bool {
    &&& q.dom().contains(k)
    &&& q[k] == (if p.dom().contains(k) {
        p[k]
    } else {
        v
    })
}

/// `q` holds `k` exactly when `p` does, with the same value.
pub open spec fn left_as_is(p: Map<Seq<char>, SpecValue>, q: Map<Seq<char>, SpecValue>, k: Seq<char>) -> bool {
    &&& q.dom().contains(k) == p.dom().contains(k)
    &&& p.dom().contains(k) ==> q[k] == p[k]
}

/// `q` fills in the size `w` x `h` and the colour `color`.
pub open spec fn sized_defaults(
    p: Map<Seq<char>, SpecValue>,
    q: Map<Seq<char>, SpecValue>,
    w: int,
    h: int,
    color: Seq<char>,
) -> bool {
    &&& filled_with(p, q, "Width"@, SpecValue::Integer(w))
    &&& filled_with(p, q, "Height"@, SpecValue::Integer(h))
    &&& filled_with(p, q, "Color"@, SpecValue::Str(color))
}

/// `q` fills in no size and the colour `color`.
pub open spec fn unsized_defaults(
    p: Map<Seq<char>, SpecValue>,
    q: Map<Seq<char>, SpecValue>,
    color: Seq<char>,
) -> bool {
    &&& left_as_is(p, q, "Width"@)
    &&& left_as_is(p, q, "Height"@)
    &&& filled_with(p, q, "Color"@, SpecValue::Str(color))
}

/// Normalising a component fills in, where missing, Left 0, Top 0, Align
/// alNone, Anchors [akLeft, akTop], Visible true, Enabled true, Font.Size 8
/// and Font.Style []; it adds no property but these, the size and the
/// colour; it keeps the name and the type, and normalises each child in its
/// place.
pub proof fn law_normalize_defaults(c: SpecComponent)
    ensures
        filled_with(c.props, spec_normalize(c).props, "Left"@, SpecValue::Integer(0)),
        filled_with(c.props, spec_normalize(c).props, "Top"@, SpecValue::Integer(0)),
        filled_with(c.props, spec_normalize(c).props, "Align"@, SpecValue::Str("alNone"@)),
        filled_with(
            c.props,
            spec_normalize(c).props,
            "Anchors"@,
            SpecValue::List(seq!["akLeft"@, "akTop"@]),
        ),
        filled_with(c.props, spec_normalize(c).props, "Visible"@, SpecValue::Bool(true)),
        filled_with(c.props, spec_normalize(c).props, "Enabled"@, SpecValue::Bool(true)),
        filled_with(c.props, spec_normalize(c).props, "Font.Size"@, SpecValue::Integer(8)),
        filled_with(c.props, spec_normalize(c).props, "Font.Style"@, SpecValue::List(Seq::empty())),
        forall|k: Seq<char>|
            #[trigger] spec_normalize(c).props.dom().contains(k) ==> c.props.dom().contains(k) || k == "Left"@ || k == "Top"@ || k == "Width"@ || k == "Height"@ || k == "Color"@ || k == "Align"@ || k == "Anchors"@ || k == "Visible"@ || k == "Enabled"@ || k == "Font.Size"@ || k == "Font.Style"@,
        spec_normalize(c).name == c.name,
        spec_normalize(c).comp_type == c.comp_type,
        spec_normalize(c).children.len() == c.children.len(),
        forall|i: int|
            0 <= i < c.children.len() ==> spec_normalize(c).children[i] == spec_normalize(
                #[trigger] c.children[i],
            ),
{
    lemma_default_names_distinct();
    law_defaults_keep_existing(c.comp_type, c.props);
    let p = c.props;
    let d = spec_defaults(c.comp_type);
    let p1 = with_default(p, "Left"@, SpecValue::Integer(0));
    let p2 = with_default(p1, "Top"@, SpecValue::Integer(0));
    let p3 = with_size_default(p2, "Width"@, d.0);
    let p4 = with_size_default(p3, "Height"@, d.1);
    let p5 = with_default(p4, "Color"@, SpecValue::Str(d.2));
    let p6 = with_default(p5, "Align"@, SpecValue::Str("alNone"@));
    let p7 = with_default(p6, "Anchors"@, SpecValue::List(seq!["akLeft"@, "akTop"@]));
    let p8 = with_default(p7, "Visible"@, SpecValue::Bool(true));
    let p9 = with_default(p8, "Enabled"@, SpecValue::Bool(true));
    let p10 = with_default(p9, "Font.Size"@, SpecValue::Integer(8));
    let p11 = with_default(p10, "Font.Style"@, SpecValue::List(Seq::empty()));
    assert(p11 == spec_normalize(c).props);
    assert(filled_with(p, p1, "Left"@, SpecValue::Integer(0)));
    lemma_other_default(p, p1, "Left"@, "Top"@, SpecValue::Integer(0), None);
    lemma_other_default(p, p2, "Left"@, "Width"@, SpecValue::Bool(true), d.0);
    lemma_other_default(p, p3, "Left"@, "Height"@, SpecValue::Bool(true), d.1);
    lemma_other_default(p, p4, "Left"@, "Color"@, SpecValue::Str(d.2), None);
    lemma_other_default(p, p5, "Left"@, "Align"@, SpecValue::Str("alNone"@), None);
    lemma_other_default(p, p6, "Left"@, "Anchors"@, SpecValue::List(seq!["akLeft"@, "akTop"@]), None);
    lemma_other_default(p, p7, "Left"@, "Visible"@, SpecValue::Bool(true), None);
    lemma_other_default(p, p8, "Left"@, "Enabled"@, SpecValue::Bool(true), None);
    lemma_other_default(p, p9, "Left"@, "Font.Size"@, SpecValue::Integer(8), None);
    lemma_other_default(p, p10, "Left"@, "Font.Style"@, SpecValue::List(Seq::empty()), None);
    assert(filled_with(p, p2, "Top"@, SpecValue::Integer(0)));
    lemma_other_default(p, p2, "Top"@, "Width"@, SpecValue::Bool(true), d.0);
    lemma_other_default(p, p3, "Top"@, "Height"@, SpecValue::Bool(true), d.1);
    lemma_other_default(p, p4, "Top"@, "Color"@, SpecValue::Str(d.2), None);
    lemma_other_default(p, p5, "Top"@, "Align"@, SpecValue::Str("alNone"@), None);
    lemma_other_default(p, p6, "Top"@, "Anchors"@, SpecValue::List(seq!["akLeft"@, "akTop"@]), None);
    lemma_other_default(p, p7, "Top"@, "Visible"@, SpecValue::Bool(true), None);
    lemma_other_default(p, p8, "Top"@, "Enabled"@, SpecValue::Bool(true), None);
    lemma_other_default(p, p9, "Top"@, "Font.Size"@, SpecValue::Integer(8), None);
    lemma_other_default(p, p10, "Top"@, "Font.Style"@, SpecValue::List(Seq::empty()), None);
    assert(filled_with(p, p6, "Align"@, SpecValue::Str("alNone"@)));
    lemma_other_default(p, p6, "Align"@, "Anchors"@, SpecValue::List(seq!["akLeft"@, "akTop"@]), None);
    lemma_other_default(p, p7, "Align"@, "Visible"@, SpecValue::Bool(true), None);
    lemma_other_default(p, p8, "Align"@, "Enabled"@, SpecValue::Bool(true), None);
    lemma_other_default(p, p9, "Align"@, "Font.Size"@, SpecValue::Integer(8), None);
    lemma_other_default(p, p10, "Align"@, "Font.Style"@, SpecValue::List(Seq::empty()), None);
    assert(filled_with(p, p7, "Anchors"@, SpecValue::List(seq!["akLeft"@, "akTop"@])));
    lemma_other_default(p, p7, "Anchors"@, "Visible"@, SpecValue::Bool(true), None);
    lemma_other_default(p, p8, "Anchors"@, "Enabled"@, SpecValue::Bool(true), None);
    lemma_other_default(p, p9, "Anchors"@, "Font.Size"@, SpecValue::Integer(8), None);
    lemma_other_default(p, p10, "Anchors"@, "Font.Style"@, SpecValue::List(Seq::empty()), None);
    assert(filled_with(p, p8, "Visible"@, SpecValue::Bool(true)));
    lemma_other_default(p, p8, "Visible"@, "Enabled"@, SpecValue::Bool(true), None);
    lemma_other_default(p, p9, "Visible"@, "Font.Size"@, SpecValue::Integer(8), None);
    lemma_other_default(p, p10, "Visible"@, "Font.Style"@, SpecValue::List(Seq::empty()), None);
    assert(filled_with(p, p9, "Enabled"@, SpecValue::Bool(true)));
    lemma_other_default(p, p9, "Enabled"@, "Font.Size"@, SpecValue::Integer(8), None);
    lemma_other_default(p, p10, "Enabled"@, "Font.Style"@, SpecValue::List(Seq::empty()), None);
    assert(filled_with(p, p10, "Font.Size"@, SpecValue::Integer(8)));
    lemma_other_default(p, p10, "Font.Size"@, "Font.Style"@, SpecValue::List(Seq::empty()), None);
    assert(filled_with(p, p11, "Font.Style"@, SpecValue::List(Seq::empty())));
}

/// The size and colour that normalising fills in, by component type; any
/// other type gets no size and the colour clBtnFace.
pub proof fn law_normalize_type_defaults(c: SpecComponent)
    ensures
        c.comp_type == "TForm"@ ==> sized_defaults(c.props, spec_normalize(c).props, 640, 480, "clBtnFace"@),
        c.comp_type == "TPanel"@ ==> sized_defaults(c.props, spec_normalize(c).props, 100, 41, "clBtnFace"@),
        c.comp_type == "TGroupBox"@ ==> sized_defaults(c.props, spec_normalize(c).props, 185, 105, "clBtnFace"@),
        c.comp_type == "TLabel"@ ==> unsized_defaults(c.props, spec_normalize(c).props, "clBtnFace"@),
        c.comp_type == "TEdit"@ ==> sized_defaults(c.props, spec_normalize(c).props, 121, 21, "clWindow"@),
        c.comp_type == "TMemo"@ ==> sized_defaults(c.props, spec_normalize(c).props, 185, 89, "clWindow"@),
        c.comp_type == "TButton"@ ==> sized_defaults(c.props, spec_normalize(c).props, 75, 25, "clBtnFace"@),
        c.comp_type == "TBitBtn"@ ==> sized_defaults(c.props, spec_normalize(c).props, 75, 25, "clBtnFace"@),
        c.comp_type == "TCheckBox"@ ==> sized_defaults(c.props, spec_normalize(c).props, 97, 17, "clBtnFace"@),
        c.comp_type == "TRadioButton"@ ==> sized_defaults(c.props, spec_normalize(c).props, 113, 17, "clBtnFace"@),
        c.comp_type == "TComboBox"@ ==> sized_defaults(c.props, spec_normalize(c).props, 145, 21, "clWindow"@),
        c.comp_type == "TListBox"@ ==> sized_defaults(c.props, spec_normalize(c).props, 121, 97, "clWindow"@),
        c.comp_type == "TStringGrid"@ ==> sized_defaults(c.props, spec_normalize(c).props, 185, 105, "clWindow"@),
        c.comp_type == "TPageControl"@ ==> sized_defaults(c.props, spec_normalize(c).props, 289, 193, "clBtnFace"@),
        c.comp_type == "TTabSheet"@ ==> unsized_defaults(c.props, spec_normalize(c).props, "clBtnFace"@),
        c.comp_type == "TImage"@ ==> sized_defaults(c.props, spec_normalize(c).props, 105, 105, "clBtnFace"@),
        (c.comp_type != "TForm"@ && c.comp_type != "TPanel"@ && c.comp_type != "TGroupBox"@ && c.comp_type != "TLabel"@ && c.comp_type != "TEdit"@ && c.comp_type != "TMemo"@ && c.comp_type != "TButton"@ && c.comp_type != "TBitBtn"@ && c.comp_type != "TCheckBox"@ && c.comp_type != "TRadioButton"@ && c.comp_type != "TComboBox"@ && c.comp_type != "TListBox"@ && c.comp_type != "TStringGrid"@ && c.comp_type != "TPageControl"@ && c.comp_type != "TTabSheet"@ && c.comp_type != "TImage"@) ==> unsized_defaults(
            c.props,
            spec_normalize(c).props,
            "clBtnFace"@,
        ),
{
    lemma_default_names_distinct();
    let p = c.props;
    let d = spec_defaults(c.comp_type);
    let p1 = with_default(p, "Left"@, SpecValue::Integer(0));
    let p2 = with_default(p1, "Top"@, SpecValue::Integer(0));
    let p3 = with_size_default(p2, "Width"@, d.0);
    let p4 = with_size_default(p3, "Height"@, d.1);
    let p5 = with_default(p4, "Color"@, SpecValue::Str(d.2));
    let p6 = with_default(p5, "Align"@, SpecValue::Str("alNone"@));
    let p7 = with_default(p6, "Anchors"@, SpecValue::List(seq!["akLeft"@, "akTop"@]));
    let p8 = with_default(p7, "Visible"@, SpecValue::Bool(true));
    let p9 = with_default(p8, "Enabled"@, SpecValue::Bool(true));
    let p10 = with_default(p9, "Font.Size"@, SpecValue::Integer(8));
    let p11 = with_default(p10, "Font.Style"@, SpecValue::List(Seq::empty()));
    assert(p11 == spec_normalize(c).props);
    assert(d.0 is Some ==> filled_with(p, p3, "Width"@, SpecValue::Integer(d.0->0)));
    assert(d.0 is None ==> left_as_is(p, p3, "Width"@));
    lemma_other_default(p, p3, "Width"@, "Height"@, SpecValue::Bool(true), d.1);
    lemma_other_default(p, p4, "Width"@, "Color"@, SpecValue::Str(d.2), None);
    lemma_other_default(p, p5, "Width"@, "Align"@, SpecValue::Str("alNone"@), None);
    lemma_other_default(p, p6, "Width"@, "Anchors"@, SpecValue::List(seq!["akLeft"@, "akTop"@]), None);
    lemma_other_default(p, p7, "Width"@, "Visible"@, SpecValue::Bool(true), None);
    lemma_other_default(p, p8, "Width"@, "Enabled"@, SpecValue::Bool(true), None);
    lemma_other_default(p, p9, "Width"@, "Font.Size"@, SpecValue::Integer(8), None);
    lemma_other_default(p, p10, "Width"@, "Font.Style"@, SpecValue::List(Seq::empty()), None);
    assert(d.1 is Some ==> filled_with(p, p4, "Height"@, SpecValue::Integer(d.1->0)));
    assert(d.1 is None ==> left_as_is(p, p4, "Height"@));
    lemma_other_default(p, p4, "Height"@, "Color"@, SpecValue::Str(d.2), None);
    lemma_other_default(p, p5, "Height"@, "Align"@, SpecValue::Str("alNone"@), None);
    lemma_other_default(p, p6, "Height"@, "Anchors"@, SpecValue::List(seq!["akLeft"@, "akTop"@]), None);
    lemma_other_default(p, p7, "Height"@, "Visible"@, SpecValue::Bool(true), None);
    lemma_other_default(p, p8, "Height"@, "Enabled"@, SpecValue::Bool(true), None);
    lemma_other_default(p, p9, "Height"@, "Font.Size"@, SpecValue::Integer(8), None);
    lemma_other_default(p, p10, "Height"@, "Font.Style"@, SpecValue::List(Seq::empty()), None);
    assert(filled_with(p, p5, "Color"@, SpecValue::Str(d.2)));
    lemma_other_default(p, p5, "Color"@, "Align"@, SpecValue::Str("alNone"@), None);
    lemma_other_default(p, p6, "Color"@, "Anchors"@, SpecValue::List(seq!["akLeft"@, "akTop"@]), None);
    lemma_other_default(p, p7, "Color"@, "Visible"@, SpecValue::Bool(true), None);
    lemma_other_default(p, p8, "Color"@, "Enabled"@, SpecValue::Bool(true), None);
    lemma_other_default(p, p9, "Color"@, "Font.Size"@, SpecValue::Integer(8), None);
    lemma_other_default(p, p10, "Color"@, "Font.Style"@, SpecValue::List(Seq::empty()), None);
}

} // verus!
