//! Parsing the text form of Delphi form files (DFM) into a component tree.
use vstd::prelude::*;
use vstd::seq_lib::lemma_flatten_concat;
use crate::map::StrMap;
use crate::number::{is_float_literal, is_float_text, parse_i64, spec_parse_i64};
use crate::text::{
    chars_end_with_char, chars_eq_ignore_ascii_case, chars_equal, chars_of, chars_start_with,
    chars_start_with_char, ends_with, eq_ignore_ascii_case, find_char, first_index_of,
    lines_chars, lines_of, slice_chars, split_chars, split_on, starts_with, string_of,
    trim, trim_chars, views, ascii_lower_code, lemma_first_index_of,
};

verus! {

/// A property value as it stands in a DFM file.
#[derive(Debug, PartialEq)]
pub enum PropValue {
    /// `True` or `False`, in any ASCII case.
    Bool(bool),
    /// A quoted string (quotes removed) or a bare identifier.
    Str(String),
    /// A set such as `[akLeft, akTop]`, its items trimmed.
    List(Vec<String>),
    /// A number written as a 64-bit integer.
    Integer(i64),
    /// Any other number; the text is kept as written and is a valid
    /// floating-point literal.
    Real(String),
}

/// The mathematical value of a `PropValue`.
pub enum SpecValue {
    Bool(bool),
    Str(Seq<char>),
    List(Seq<Seq<char>>),
    Integer(int),
    Real(Seq<char>),
}

impl View for PropValue {
    type V = SpecValue;

    open spec fn view(&self) -> SpecValue {
        match self {
            PropValue::Bool(b) => SpecValue::Bool(*b),
            PropValue::Str(s) => SpecValue::Str(s@),
            PropValue::List(v) => SpecValue::List(v@.map_values(|s: String| s@)),
            PropValue::Integer(n) => SpecValue::Integer(*n as int),
            PropValue::Real(s) => SpecValue::Real(s@),
        }
    }
}

/// The properties of a component, by name.
pub type Props = StrMap<PropValue>;

/// A component (an `object` or `inherited` block) of a form.
#[derive(Debug)]
pub struct Component {
    pub comp_type: String,
    pub name: String,
    pub props: Props,
    pub children: Vec<Component>,
}

/// The mathematical value of a `Component`.
pub struct SpecComponent {
    pub comp_type: Seq<char>,
    pub name: Seq<char>,
    pub props: Map<Seq<char>, SpecValue>,
    pub children: Seq<SpecComponent>,
}

/// The values of a property map.
pub open spec fn props_view(p: Props) -> Map<Seq<char>, SpecValue> {
    p@.map_values(|v: PropValue| v@)
}

/// The mathematical value of a component tree.
pub open spec fn component_view(c: Component) -> SpecComponent
    decreases c,
{
    SpecComponent {
        comp_type: c.comp_type@,
        name: c.name@,
        props: props_view(c.props),
        children: Seq::new(
            c.children@.len(),
            |i: int|
                if 0 <= i < c.children@.len() {
                    component_view(c.children@[i])
                } else {
                    arbitrary()
                },
        ),
    }
}

impl View for Component {
    type V = SpecComponent;

    open spec fn view(&self) -> SpecComponent {
        component_view(*self)
    }
}

// ---------------------------------------------------------------------------
// Values, headers and properties
// ---------------------------------------------------------------------------

/// The text between the first and the last character of `v`.
pub open spec fn inner_text(v: Seq<char>) -> Seq<char> {
    v.subrange(1, v.len() - 1)
}

/// The value that a property's text `v` (already trimmed) denotes.
pub open spec fn spec_parse_value(v: Seq<char>) -> SpecValue {
    if eq_ignore_ascii_case(v, "true"@) {
        SpecValue::Bool(true)
    } else if eq_ignore_ascii_case(v, "false"@) {
        SpecValue::Bool(false)
    } else if starts_with(v, seq!['[']) && ends_with(v, seq![']']) {
        if trim(inner_text(v)).len() == 0 {
            SpecValue::List(Seq::empty())
        } else {
            SpecValue::List(split_on(inner_text(v), ',').map_values(|p: Seq<char>| trim(p)))
        }
    } else if starts_with(v, seq!['\'']) && ends_with(v, seq!['\'']) && v.len() >= 2 {
        SpecValue::Str(inner_text(v))
    } else if let Some(n) = spec_parse_i64(v) {
        SpecValue::Integer(n)
    } else if is_float_literal(v) {
        SpecValue::Real(v)
    } else {
        SpecValue::Str(v)
    }
}

/// What follows the `object ` or `inherited ` keyword of a header line.
pub open spec fn header_rest(h: Seq<char>) -> Option<Seq<char>> {
    if starts_with(h, "object "@) {
        Some(h.skip("object "@.len() as int))
    } else if starts_with(h, "inherited "@) {
        Some(h.skip("inherited "@.len() as int))
    } else {
        None
    }
}

/// The `(name, type)` of a header line `object name: Type`, both trimmed;
/// `None` when the keyword or the colon is missing.
pub open spec fn spec_parse_header(h: Seq<char>) -> Option<(Seq<char>, Seq<char>)> {
    match header_rest(h) {
        None => None,
        Some(r) => {
            let k = first_index_of(r, ':');
            if k < r.len() {
                Some((trim(r.take(k)), trim(r.skip(k + 1))))
            } else {
                None
            }
        },
    }
}

/// The `(key, value)` of a line `key = value`, split at the first `=` and
/// both trimmed; `None` when there is no `=`.
pub open spec fn spec_parse_property(line: Seq<char>) -> Option<(Seq<char>, Seq<char>)> {
    let k = first_index_of(line, '=');
    if k < line.len() {
        Some((trim(line.take(k)), trim(line.skip(k + 1))))
    } else {
        None
    }
}

/// A property value from its text, as `parse_value` reads it.
pub fn value_of_chars(v: &[char]) -> (r: PropValue)
    ensures
        r@ == spec_parse_value(v@),
{
    if chars_eq_ignore_ascii_case(v, &chars_of("true")) {
        return PropValue::Bool(true);
    }
    if chars_eq_ignore_ascii_case(v, &chars_of("false")) {
        return PropValue::Bool(false);
    }
    if chars_start_with_char(v, '[') && chars_end_with_char(v, ']') {
        assert(v@.len() >= 2) by {
            if v@.len() == 1 {
                assert(v@.take(1)[0] == '[');
                assert(v@.skip(0)[0] == ']');
            }
        }
        let inner = slice_chars(v, 1, v.len() - 1);
        assert(inner@ == inner_text(v@));
        if trim_chars(&inner).len() == 0 {
            let empty: Vec<String> = Vec::new();
            assert(empty@.map_values(|s: String| s@) =~= Seq::<Seq<char>>::empty());
            return PropValue::List(empty);
        }
        let parts = split_chars(&inner, ',');
        let mut items: Vec<String> = Vec::new();
        let mut i: usize = 0;
        while i < parts.len()
            invariant
                i <= parts@.len(),
                items@.map_values(|s: String| s@) == views(parts@).take(i as int).map_values(
                    |p: Seq<char>| trim(p),
                ),
            decreases parts@.len() - i,
        {
            let t = trim_chars(&parts[i]);
            let item = string_of(&t);
            let ghost before = items@;
            items.push(item);
            assert(items@.map_values(|s: String| s@) =~= before.map_values(|s: String| s@).push(
                item@,
            ));
            assert(views(parts@)[i as int] == parts@[i as int]@);
            assert(views(parts@).take(i + 1).map_values(|p: Seq<char>| trim(p)) =~= views(
                parts@,
            ).take(i as int).map_values(|p: Seq<char>| trim(p)).push(trim(parts@[i as int]@)));
            i = i + 1;
        }
        assert(views(parts@).take(parts@.len() as int) =~= views(parts@));
        return PropValue::List(items);
    }
    if chars_start_with_char(v, '\'') && chars_end_with_char(v, '\'') && v.len() >= 2 {
        let inner = slice_chars(v, 1, v.len() - 1);
        return PropValue::Str(string_of(&inner));
    }
    match parse_i64(v) {
        Some(n) => PropValue::Integer(n),
        None => {
            if is_float_text(v) {
                PropValue::Real(string_of(v))
            } else {
                PropValue::Str(string_of(v))
            }
        },
    }
}

/// A property value from its text (already trimmed).
pub fn parse_value(value: &str) -> (r: PropValue)
    ensures
        r@ == spec_parse_value(value@),
{
    value_of_chars(&chars_of(value))
}

/// The `(name, type)` of a header line, from its characters.
pub fn header_of_chars(h: &[char]) -> (r: Option<(String, String)>)
    ensures
        match r {
            Some((name, ty)) => spec_parse_header(h@) == Some((name@, ty@)),
            None => spec_parse_header(h@) is None,
        },
{
    let object = chars_of("object ");
    let inherited = chars_of("inherited ");
    let rest = if chars_start_with(h, &object) {
        slice_chars(h, object.len(), h.len())
    } else if chars_start_with(h, &inherited) {
        slice_chars(h, inherited.len(), h.len())
    } else {
        return None;
    };
    assert(header_rest(h@) == Some(rest@));
    match find_char(&rest, ':') {
        None => None,
        Some(k) => {
            let n = rest.len();
            let name = trim_chars(&slice_chars(&rest, 0, k));
            let ty = trim_chars(&slice_chars(&rest, k + 1, n));
            assert(rest@.subrange(0, k as int) =~= rest@.take(k as int));
            assert(rest@.subrange(k + 1, n as int) =~= rest@.skip(k + 1));
            Some((string_of(&name), string_of(&ty)))
        },
    }
}

/// The `(name, type)` of a header line such as `object frmMain: TForm`.
pub fn parse_header(header: &str) -> (r: Option<(String, String)>)
    ensures
        match r {
            Some((name, ty)) => spec_parse_header(header@) == Some((name@, ty@)),
            None => spec_parse_header(header@) is None,
        },
{
    header_of_chars(&chars_of(header))
}

/// The trimmed `(key, value)` of a property line, from its characters.
pub fn property_of_chars(line: &[char]) -> (r: Option<(Vec<char>, Vec<char>)>)
    ensures
        match r {
            Some((k, v)) => spec_parse_property(line@) == Some((k@, v@)),
            None => spec_parse_property(line@) is None,
        },
{
    match find_char(line, '=') {
        None => None,
        Some(idx) => {
            let n = line.len();
            let key = trim_chars(&slice_chars(line, 0, idx));
            let value = trim_chars(&slice_chars(line, idx + 1, n));
            assert(line@.subrange(0, idx as int) =~= line@.take(idx as int));
            assert(line@.subrange(idx + 1, n as int) =~= line@.skip(idx + 1));
            Some((key, value))
        },
    }
}

/// The trimmed `(key, value)` of a property line such as `Left = 10`.
pub fn parse_property(line: &str) -> (r: Option<(String, String)>)
    ensures
        match r {
            Some((k, v)) => spec_parse_property(line@) == Some((k@, v@)),
            None => spec_parse_property(line@) is None,
        },
{
    match property_of_chars(&chars_of(line)) {
        None => None,
        Some((k, v)) => Some((string_of(&k), string_of(&v))),
    }
}

// ---------------------------------------------------------------------------
// Components
// ---------------------------------------------------------------------------

/// A trimmed line opens a component.
pub open spec fn opens_component(t: Seq<char>) -> bool {
    starts_with(t, "object "@) || starts_with(t, "inherited "@)
}

/// The first line at or after `pos` that opens a component, or
/// `lines.len()` when there is none.
pub open spec fn next_header(lines: Seq<Seq<char>>, pos: int) -> int
    decreases lines.len() - pos,
{
    if pos >= lines.len() {
        lines.len() as int
    } else if opens_component(trim(lines[pos])) {
        pos
    } else {
        next_header(lines, pos + 1)
    }
}

/// The line after the first line at or after `pos` whose trimmed text ends
/// with `close`, or `lines.len()` when there is none.
pub open spec fn block_end(lines: Seq<Seq<char>>, pos: int, close: char) -> int
    decreases lines.len() - pos,
{
    if pos >= lines.len() {
        lines.len() as int
    } else if ends_with(trim(lines[pos]), seq![close]) {
        pos + 1
    } else {
        block_end(lines, pos + 1, close)
    }
}

/// `next_header` does not go back.
pub proof fn lemma_next_header(lines: Seq<Seq<char>>, pos: int)
    ensures
        next_header(lines, pos) <= lines.len(),
        next_header(lines, pos) < lines.len() ==> pos <= next_header(lines, pos),
        pos <= lines.len() ==> pos <= next_header(lines, pos),
    decreases lines.len() - pos,
{
    if pos < lines.len() && !opens_component(trim(lines[pos])) {
        lemma_next_header(lines, pos + 1);
    }
}

/// `block_end` goes forward and stays within the lines.
pub proof fn lemma_block_end(lines: Seq<Seq<char>>, pos: int, close: char)
    requires
        pos <= lines.len(),
    ensures
        pos <= block_end(lines, pos, close) <= lines.len(),
        pos < lines.len() ==> pos < block_end(lines, pos, close),
    decreases lines.len() - pos,
{
    if pos < lines.len() && !ends_with(trim(lines[pos]), seq![close]) {
        lemma_block_end(lines, pos + 1, close);
    }
}

/// Parsing a component: find the next line that opens one, read its header,
/// then its body. The result is the component, if its header is well formed,
/// and the line where parsing stopped.
pub open spec fn parse_object_spec(lines: Seq<Seq<char>>, pos: int) -> (
    Option<SpecComponent>,
    int,
)
    decreases lines.len() - pos, 0int,
{
    let h = next_header(lines, pos);
    if h >= lines.len() {
        (None, lines.len() as int)
    } else {
        match spec_parse_header(trim(lines[h])) {
            None => (None, h + 1),
            Some((name, ty)) => {
                proof {
                    lemma_next_header(lines, pos);
                }
                let (end, props, children) = body_spec(
                    lines,
                    h + 1,
                    Map::empty(),
                    Seq::empty(),
                );
                (Some(SpecComponent { comp_type: ty, name, props, children }), end)
            },
        }
    }
}

/// Reading the body of a component from line `pos` on, with the properties
/// and children read so far: lines up to `end` (inclusive) or the end of the
/// input. `name = value` lines set properties (later ones replace earlier
/// ones); values `{` and `(` open blocks that are skipped up to the line that
/// ends with `}` or `)`; nested components become children; other lines are
/// ignored. The result is the line after the body, the properties and the
/// children.
pub open spec fn body_spec(
    lines: Seq<Seq<char>>,
    pos: int,
    props: Map<Seq<char>, SpecValue>,
    children: Seq<SpecComponent>,
) -> (int, Map<Seq<char>, SpecValue>, Seq<SpecComponent>)
    decreases lines.len() - pos, 1int,
{
    if pos < 0 || pos >= lines.len() {
        (pos, props, children)
    } else {
        let t = trim(lines[pos]);
        if t == "end"@ {
            (pos + 1, props, children)
        } else if opens_component(t) {
            let (child, next) = parse_object_spec(lines, pos);
            let kids = match child {
                Some(c) => children.push(c),
                None => children,
            };
            // `parse_object_spec` always moves forward (see `parse_object`);
            // the guard only makes the definition visibly well founded.
            if pos < next <= lines.len() {
                body_spec(lines, next, props, kids)
            } else {
                (next, props, kids)
            }
        } else {
            match spec_parse_property(t) {
                Some((k, v)) => {
                    if v == "{"@ {
                        proof {
                            lemma_block_end(lines, pos + 1, '}');
                        }
                        body_spec(lines, block_end(lines, pos + 1, '}'), props, children)
                    } else if v == "("@ {
                        proof {
                            lemma_block_end(lines, pos + 1, ')');
                        }
                        body_spec(lines, block_end(lines, pos + 1, ')'), props, children)
                    } else {
                        body_spec(lines, pos + 1, props.insert(k, spec_parse_value(v)), children)
                    }
                },
                None => body_spec(lines, pos + 1, props, children),
            }
        }
    }
}

/// The component tree that a DFM text describes: the first component in it.
pub open spec fn spec_parse_dfm(input: Seq<char>) -> Option<SpecComponent> {
    parse_object_spec(lines_of(input), 0).0
}

/// The values of a sequence of components.
pub open spec fn components_view(cs: Seq<Component>) -> Seq<SpecComponent> {
    cs.map_values(|c: Component| component_view(c))
}

/// The value of an optional component.
pub open spec fn option_view(c: Option<Component>) -> Option<SpecComponent> {
    match c {
        Some(c) => Some(component_view(c)),
        None => None,
    }
}

/// Whether the trimmed line `t` opens a component.
fn opens_component_chars(t: &[char]) -> (r: bool)
    ensures
        r == opens_component(t@),
{
    chars_start_with(t, &chars_of("object ")) || chars_start_with(t, &chars_of("inherited "))
}

/// The first line at or after `from` that opens a component, or the number
/// of lines.
fn next_header_index(lines: &Vec<Vec<char>>, from: usize) -> (h: usize)
    requires
        from <= lines@.len(),
    ensures
        h == next_header(views(lines@), from as int),
{
    let mut i: usize = from;
    while i < lines.len()
        invariant
            from <= i <= lines@.len(),
            next_header(views(lines@), from as int) == next_header(views(lines@), i as int),
        decreases lines@.len() - i,
    {
        let t = trim_chars(&lines[i]);
        assert(views(lines@)[i as int] == lines@[i as int]@);
        if opens_component_chars(&t) {
            return i;
        }
        i = i + 1;
    }
    i
}

/// Whether a property value opens a binary block (`{`).
pub fn is_binary_block(value: &[char]) -> (r: bool)
    ensures
        r == (value@ == "{"@),
{
    chars_equal(value, &chars_of("{"))
}

/// Whether a property value opens a list block (`(`).
pub fn is_list_block(value: &[char]) -> (r: bool)
    ensures
        r == (value@ == "("@),
{
    chars_equal(value, &chars_of("("))
}

/// Moves `pos` past a block that the line at `pos` opens: to the line after
/// the first later line whose trimmed text ends with `close`, or to the end.
fn skip_block(lines: &Vec<Vec<char>>, pos: &mut usize, close: char)
    requires
        *old(pos) < lines@.len(),
    ensures
        *final(pos) == block_end(views(lines@), *old(pos) + 1, close),
{
    let n = lines.len();
    *pos = *pos + 1;
    while *pos < lines.len()
        invariant
            *pos <= lines@.len(),
            block_end(views(lines@), *old(pos) + 1, close) == block_end(
                views(lines@),
                *pos as int,
                close,
            ),
        decreases lines@.len() - *pos,
    {
        let t = trim_chars(&lines[*pos]);
        assert(views(lines@)[*pos as int] == lines@[*pos as int]@);
        if chars_end_with_char(&t, close) {
            *pos = *pos + 1;
            return;
        }
        *pos = *pos + 1;
    }
}

/// Moves `pos` past a binary block (`{` ... a line ending with `}`).
pub fn skip_binary_block(lines: &Vec<Vec<char>>, pos: &mut usize)
    requires
        *old(pos) < lines@.len(),
    ensures
        *final(pos) == block_end(views(lines@), *old(pos) + 1, '}'),
{
    skip_block(lines, pos, '}')
}

/// Moves `pos` past a list block (`(` ... a line ending with `)`).
pub fn skip_list_block(lines: &Vec<Vec<char>>, pos: &mut usize)
    requires
        *old(pos) < lines@.len(),
    ensures
        *final(pos) == block_end(views(lines@), *old(pos) + 1, ')'),
{
    skip_block(lines, pos, ')')
}

/// Parses the component whose header is the first component line at or
/// after `from`; also gives the line where parsing stopped.
fn parse_object_from(lines: &Vec<Vec<char>>, from: usize) -> (r: (Option<Component>, usize))
    requires
        from <= lines@.len(),
    ensures
        option_view(r.0) == parse_object_spec(views(lines@), from as int).0,
        r.1 == parse_object_spec(views(lines@), from as int).1,
        r.1 <= lines@.len(),
        from < lines@.len() ==> from < r.1,
    decreases lines@.len() - from,
{
    let ghost lv = views(lines@);
    let ghost pos0 = from as int;
    proof {
        lemma_next_header(lv, pos0);
    }
    let h = next_header_index(lines, from);
    let mut pos: usize = h;
    if pos >= lines.len() {
        return (None, pos);
    }
    let header = trim_chars(&lines[pos]);
    assert(lv[h as int] == lines@[h as int]@);
    pos = pos + 1;
    let (name, comp_type) = match header_of_chars(&header) {
        None => return (None, pos),
        Some(p) => p,
    };
    let mut props: Props = StrMap::new();
    let mut children: Vec<Component> = Vec::new();
    let ghost start = pos as int;
    assert(props_view(props) =~= Map::<Seq<char>, SpecValue>::empty());
    assert(components_view(children@) =~= Seq::<SpecComponent>::empty());
    while pos < lines.len()
        invariant_except_break
            body_spec(lv, start, Map::empty(), Seq::empty()) == body_spec(
                lv,
                pos as int,
                props_view(props),
                components_view(children@),
            ),
        invariant
            lv == views(lines@),
            pos0 == from as int,
            pos0 <= h < lines@.len(),
            start == h + 1,
            start <= pos <= lines@.len(),
        ensures
            body_spec(lv, start, Map::empty(), Seq::empty()) == (
                pos as int,
                props_view(props),
                components_view(children@),
            ),
        decreases lines@.len() - pos,
    {
        let t = trim_chars(&lines[pos]);
        assert(lv[pos as int] == lines@[pos as int]@);
        if chars_equal(&t, &chars_of("end")) {
            pos = pos + 1;
            break;
        }
        if opens_component_chars(&t) {
            let ghost before = pos as int;
            let ghost kids0 = children@;
            let (child, next) = parse_object_from(lines, pos);
            pos = next;
            match child {
                Some(c) => {
                    children.push(c);
                    assert(components_view(children@) =~= components_view(kids0).push(
                        component_view(c),
                    ));
                },
                None => {},
            }
            assert(before < pos);
            continue;
        }
        match property_of_chars(&t) {
            Some((k, v)) => {
                if is_binary_block(&v) {
                    proof {
                        lemma_block_end(lv, pos + 1, '}');
                    }
                    skip_binary_block(lines, &mut pos);
                } else if is_list_block(&v) {
                    proof {
                        lemma_block_end(lv, pos + 1, ')');
                    }
                    skip_list_block(lines, &mut pos);
                } else {
                    let ghost p0 = props_view(props);
                    let key = string_of(&k);
                    let value = value_of_chars(&v);
                    props.insert(key, value);
                    assert(props_view(props) =~= p0.insert(k@, spec_parse_value(v@)));
                    pos = pos + 1;
                }
            },
            None => {
                pos = pos + 1;
            },
        }
    }
    let comp = Component { comp_type, name, props, children };
    assert(component_view(comp).children =~= components_view(comp.children@));
    (Some(comp), pos)
}

/// Parses the component whose header is the first component line at or
/// after `pos`, and moves `pos` to where parsing stopped.
pub fn parse_object(lines: &Vec<Vec<char>>, pos: &mut usize) -> (r: Option<Component>)
    requires
        *old(pos) <= lines@.len(),
    ensures
        option_view(r) == parse_object_spec(views(lines@), *old(pos) as int).0,
        *final(pos) == parse_object_spec(views(lines@), *old(pos) as int).1,
        *final(pos) <= lines@.len(),
        *old(pos) < lines@.len() ==> *old(pos) < *final(pos),
{
    let (r, next) = parse_object_from(lines, *pos);
    *pos = next;
    r
}

/// Parses a DFM text into its component tree: the first component in it,
/// with everything nested in it.
pub fn parse_dfm(input: &str) -> (r: Option<Component>)
    ensures
        option_view(r) == spec_parse_dfm(input@),
{
    let chars = chars_of(input);
    let lines = lines_chars(&chars);
    let mut pos: usize = 0;
    parse_object(&lines, &mut pos)
}

// ---------------------------------------------------------------------------
// Summary
// ---------------------------------------------------------------------------

/// `n` spaces.
pub open spec fn spaces(n: nat) -> Seq<char> {
    Seq::new(n, |i: int| ' ')
}

/// The summary line of a component: `indent` spaces, then `name: type`.
pub open spec fn spec_summary_line(c: SpecComponent, indent: nat) -> Seq<char> {
    spaces(indent) + c.name + seq![':', ' '] + c.comp_type
}

/// The summary line of `comp` (its name and type) at indentation `indent`.
pub fn summary_line(comp: &Component, indent: usize) -> (r: String)
    ensures
        r@ == spec_summary_line(component_view(*comp), indent as nat),
{
    let mut line: Vec<char> = Vec::new();
    let mut i: usize = 0;
    while i < indent
        invariant
            i <= indent,
            line@ == spaces(i as nat),
        decreases indent - i,
    {
        line.push(' ');
        assert(line@ =~= spaces((i + 1) as nat));
        i = i + 1;
    }
    let name = chars_of(comp.name.as_str());
    let ty = chars_of(comp.comp_type.as_str());
    let mut j: usize = 0;
    while j < name.len()
        invariant
            j <= name@.len(),
            line@ == spaces(indent as nat) + name@.take(j as int),
        decreases name@.len() - j,
    {
        line.push(name[j]);
        assert(name@.take(j + 1) =~= name@.take(j as int).push(name@[j as int]));
        assert(line@ =~= spaces(indent as nat) + name@.take(j + 1));
        j = j + 1;
    }
    assert(name@.take(name@.len() as int) =~= name@);
    line.push(':');
    line.push(' ');
    let ghost head = line@;
    assert(head =~= spaces(indent as nat) + name@ + seq![':', ' ']);
    let mut k: usize = 0;
    while k < ty.len()
        invariant
            k <= ty@.len(),
            line@ == head + ty@.take(k as int),
        decreases ty@.len() - k,
    {
        line.push(ty[k]);
        assert(ty@.take(k + 1) =~= ty@.take(k as int).push(ty@[k as int]));
        assert(line@ =~= head + ty@.take(k + 1));
        k = k + 1;
    }
    assert(ty@.take(ty@.len() as int) =~= ty@);
    string_of(&line)
}

/// Whether every line of the summary of `c` at `indent` has an indentation
/// that fits in a `usize`.
pub open spec fn indents_fit(c: SpecComponent, indent: nat) -> bool
    decreases c,
{
    forall|i: int|
        0 <= i < c.children.len() ==> indent + 2 <= usize::MAX && indents_fit(
            #[trigger] c.children[i],
            indent + 2,
        )
}

/// The summary of a component tree: the line of `c` at `indent`, then the
/// summaries of its children in order.
pub open spec fn tree_lines(c: SpecComponent, indent: nat) -> Seq<Seq<char>>
    decreases c, 1nat,
{
    seq![spec_summary_line(c, indent)] + child_summaries(c, indent).flatten()
}

/// The summaries of the children of `c`, each two spaces deeper than `c`.
pub open spec fn child_summaries(c: SpecComponent, indent: nat) -> Seq<Seq<Seq<char>>>
    decreases c, 0nat,
{
    Seq::new(
        c.children.len(),
        |i: int|
            if 0 <= i < c.children.len() {
                tree_lines(c.children[i], indent + 2)
            } else {
                Seq::empty()
            },
    )
}

/// The summary of a component tree, one line per component in pre-order:
/// `comp` at `indent`, each child two spaces deeper than its parent.
pub fn summary_lines(comp: &Component, indent: usize) -> (r: Vec<String>)
    requires
        indents_fit(component_view(*comp), indent as nat),
    ensures
        r@.map_values(|s: String| s@) == tree_lines(component_view(*comp), indent as nat),
    decreases comp,
{
    let ghost c = component_view(*comp);
    let ghost n: nat = indent as nat;
    let ghost cs = child_summaries(c, n);
    let mut lines: Vec<String> = Vec::new();
    lines.push(summary_line(comp, indent));
    assert(cs.take(0) =~= Seq::<Seq<Seq<char>>>::empty());
    assert(lines@.map_values(|s: String| s@) =~= seq![spec_summary_line(c, n)] + cs.take(0).flatten());
    let mut i: usize = 0;
    while i < comp.children.len()
        invariant
            c == component_view(*comp),
            n == indent as nat,
            cs == child_summaries(c, n),
            indents_fit(c, n),
            i <= comp.children@.len(),
            c.children.len() == comp.children@.len(),
            lines@.map_values(|s: String| s@) == seq![spec_summary_line(c, n)] + cs.take(i as int).flatten(),
        decreases comp.children@.len() - i,
    {
        assert(c.children[i as int] == component_view(comp.children@[i as int]));
        assert(indents_fit(c.children[i as int], n + 2));
        let mut more = summary_lines(&comp.children[i], indent + 2);
        let ghost before = lines@;
        let ghost added = more@;
        lines.append(&mut more);
        proof {
            assert(cs[i as int] == tree_lines(c.children[i as int], n + 2));
            cs.take(i as int).lemma_flatten_push(cs[i as int]);
            assert(cs.take(i + 1) =~= cs.take(i as int).push(cs[i as int]));
            assert(lines@.map_values(|s: String| s@) =~= before.map_values(|s: String| s@)
                + added.map_values(|s: String| s@));
        }
        i = i + 1;
    }
    assert(cs.take(cs.len() as int) =~= cs);
    lines
}

// ---------------------------------------------------------------------------
// Laws
// ---------------------------------------------------------------------------

/// The two texts have the same number of lines and the same lines once
/// trimmed.
pub open spec fn same_trimmed_lines(a: Seq<Seq<char>>, b: Seq<Seq<char>>) -> bool {
    &&& a.len() == b.len()
    &&& forall|i: int| 0 <= i < a.len() ==> trim(#[trigger] a[i]) == trim(b[i])
}

/// The two texts have the same number of lines and the same trimmed lines
/// from line `from` on.
pub open spec fn same_trimmed_from(a: Seq<Seq<char>>, b: Seq<Seq<char>>, from: int) -> bool {
    &&& a.len() == b.len()
    &&& forall|i: int| from <= i < a.len() ==> trim(#[trigger] a[i]) == trim(b[i])
}

proof fn lemma_next_header_same(a: Seq<Seq<char>>, b: Seq<Seq<char>>, from: int, pos: int)
    requires
        0 <= from <= pos,
        same_trimmed_from(a, b, from),
    ensures
        next_header(a, pos) == next_header(b, pos),
    decreases a.len() - pos,
{
    if pos < a.len() {
        lemma_next_header_same(a, b, from, pos + 1);
    }
}

proof fn lemma_block_end_same(a: Seq<Seq<char>>, b: Seq<Seq<char>>, from: int, pos: int, close: char)
    requires
        0 <= from <= pos,
        same_trimmed_from(a, b, from),
    ensures
        block_end(a, pos, close) == block_end(b, pos, close),
    decreases a.len() - pos,
{
    if pos < a.len() {
        lemma_block_end_same(a, b, from, pos + 1, close);
    }
}

proof fn lemma_object_same(a: Seq<Seq<char>>, b: Seq<Seq<char>>, from: int, pos: int)
    requires
        0 <= from <= pos,
        same_trimmed_from(a, b, from),
    ensures
        parse_object_spec(a, pos) == parse_object_spec(b, pos),
    decreases a.len() - pos, 0int,
{
    lemma_next_header_same(a, b, from, pos);
    lemma_next_header(a, pos);
    let h = next_header(a, pos);
    if h < a.len() {
        assert(trim(a[h]) == trim(b[h]));
        if spec_parse_header(trim(a[h])) is Some {
            lemma_body_same(a, b, from, h + 1, Map::empty(), Seq::empty());
        }
    }
}

proof fn lemma_body_same(
    a: Seq<Seq<char>>,
    b: Seq<Seq<char>>,
    from: int,
    pos: int,
    props: Map<Seq<char>, SpecValue>,
    children: Seq<SpecComponent>,
)
    requires
        0 <= from <= pos,
        same_trimmed_from(a, b, from),
    ensures
        body_spec(a, pos, props, children) == body_spec(b, pos, props, children),
    decreases a.len() - pos, 1int,
{
    if pos < a.len() {
        let t = trim(a[pos]);
        assert(t == trim(b[pos]));
        if t == "end"@ {
        } else if opens_component(t) {
            lemma_object_same(a, b, from, pos);
            let (child, next) = parse_object_spec(a, pos);
            let kids = match child {
                Some(c) => children.push(c),
                None => children,
            };
            if pos < next <= a.len() {
                lemma_body_same(a, b, from, next, props, kids);
            }
        } else {
            match spec_parse_property(t) {
                Some((k, v)) => {
                    if v == "{"@ {
                        lemma_block_end(a, pos + 1, '}');
                        lemma_block_end_same(a, b, from, pos + 1, '}');
                        lemma_body_same(a, b, from, block_end(a, pos + 1, '}'), props, children);
                    } else if v == "("@ {
                        lemma_block_end(a, pos + 1, ')');
                        lemma_block_end_same(a, b, from, pos + 1, ')');
                        lemma_body_same(a, b, from, block_end(a, pos + 1, ')'), props, children);
                    } else {
                        lemma_body_same(
                            a,
                            b,
                            from,
                            pos + 1,
                            props.insert(k, spec_parse_value(v)),
                            children,
                        );
                    }
                },
                None => {
                    lemma_body_same(a, b, from, pos + 1, props, children);
                },
            }
        }
    }
}

proof fn lemma_body_bounds(
    lines: Seq<Seq<char>>,
    pos: int,
    props: Map<Seq<char>, SpecValue>,
    children: Seq<SpecComponent>,
)
    requires
        0 <= pos <= lines.len(),
    ensures
        pos <= body_spec(lines, pos, props, children).0 <= lines.len(),
    decreases lines.len() - pos, 1int,
{
    if pos < lines.len() {
        let t = trim(lines[pos]);
        if t == "end"@ {
        } else if opens_component(t) {
            law_parse_object_advances(lines, pos);
            let (child, next) = parse_object_spec(lines, pos);
            let kids = match child {
                Some(c) => children.push(c),
                None => children,
            };
            lemma_body_bounds(lines, next, props, kids);
        } else {
            match spec_parse_property(t) {
                Some((k, v)) => {
                    if v == "{"@ {
                        lemma_block_end(lines, pos + 1, '}');
                        lemma_body_bounds(lines, block_end(lines, pos + 1, '}'), props, children);
                    } else if v == "("@ {
                        lemma_block_end(lines, pos + 1, ')');
                        lemma_body_bounds(lines, block_end(lines, pos + 1, ')'), props, children);
                    } else {
                        lemma_body_bounds(lines, pos + 1, props.insert(k, spec_parse_value(v)), children);
                    }
                },
                None => {
                    lemma_body_bounds(lines, pos + 1, props, children);
                },
            }
        }
    }
}

/// Parsing a component always moves forward and stays within the lines
/// (so the guard in `body_spec` always holds).
pub proof fn law_parse_object_advances(lines: Seq<Seq<char>>, pos: int)
    requires
        0 <= pos <= lines.len(),
    ensures
        parse_object_spec(lines, pos).1 <= lines.len(),
        pos < lines.len() ==> pos < parse_object_spec(lines, pos).1,
    decreases lines.len() - pos, 0int,
{
    lemma_next_header(lines, pos);
    let h = next_header(lines, pos);
    if h < lines.len() && spec_parse_header(trim(lines[h])) is Some {
        lemma_body_bounds(lines, h + 1, Map::empty(), Seq::empty());
    }
}

/// Only the trimmed lines of a DFM text matter: two texts whose lines are
/// the same up to leading and trailing white space (indentation, `\r`)
/// describe the same component tree.
pub proof fn law_parse_ignores_indentation(a: Seq<char>, b: Seq<char>)
    requires
        same_trimmed_lines(lines_of(a), lines_of(b)),
    ensures
        spec_parse_dfm(a) == spec_parse_dfm(b),
{
    lemma_object_same(lines_of(a), lines_of(b), 0, 0);
}

/// A value in single quotes denotes the text strictly between the quotes,
/// exactly as written (spaces included): two characters shorter than the
/// value.
pub proof fn law_quoted_value(v: Seq<char>)
    requires
        v.len() >= 2,
        v[0] == '\'',
        v[v.len() - 1] == '\'',
    ensures
        spec_parse_value(v) == SpecValue::Str(v.subrange(1, v.len() - 1)),
        v.subrange(1, v.len() - 1).len() == v.len() - 2,
{
    reveal_strlit("true");
    reveal_strlit("false");
    assert(ascii_lower_code(v[0]) != ascii_lower_code("true"@[0]));
    assert(ascii_lower_code(v[0]) != ascii_lower_code("false"@[0]));
    assert(!eq_ignore_ascii_case(v, "true"@));
    assert(!eq_ignore_ascii_case(v, "false"@));
    assert(v.take(1)[0] == '\'');
    assert(!starts_with(v, seq!['[']));
    assert(v.take(1) =~= seq!['\'']);
    assert(v.skip(v.len() - 1) =~= seq!['\'']);
}

/// `next_header` finds the first line, from `pos` on, that opens a component.
proof fn lemma_next_header_at(lines: Seq<Seq<char>>, pos: int, i: int)
    requires
        0 <= pos <= i < lines.len(),
        forall|j: int| pos <= j < i ==> !opens_component(trim(#[trigger] lines[j])),
        opens_component(trim(lines[i])),
    ensures
        next_header(lines, pos) == i,
    decreases i - pos,
{
    if pos < i {
        lemma_next_header_at(lines, pos + 1, i);
    }
}

/// When the first line of a text that opens a component (trimmed, it starts
/// with `object ` or `inherited `) reads `keyword name: Type`, the text
/// parses to a component with that name and that type, both trimmed,
/// whichever of the two keywords opens it.
pub proof fn law_parse_dfm_root(
    input: Seq<char>,
    i: int,
    keyword: Seq<char>,
    name: Seq<char>,
    ty: Seq<char>,
)
    requires
        0 <= i < lines_of(input).len(),
        forall|j: int|
            0 <= j < i ==> !starts_with(trim(#[trigger] lines_of(input)[j]), "object "@)
                && !starts_with(trim(lines_of(input)[j]), "inherited "@),
        keyword == "object "@ || keyword == "inherited "@,
        trim(lines_of(input)[i]) == keyword + name + seq![':'] + ty,
        !name.contains(':'),
    ensures
        spec_parse_dfm(input) is Some,
        (spec_parse_dfm(input)->0).name == trim(name),
        (spec_parse_dfm(input)->0).comp_type == trim(ty),
{
    let lines = lines_of(input);
    let t = trim(lines[i]);
    assert(t.take(keyword.len() as int) =~= keyword);
    assert(opens_component(t));
    lemma_next_header_at(lines, 0, i);
    law_header_line(keyword, name, ty);
}

/// Which keyword opens the first component does not matter: two texts that
/// differ only in that line, `object ...` in one and `inherited ...` with
/// the same remainder in the other, describe the same component tree.
pub proof fn law_root_keyword_irrelevant(a: Seq<char>, b: Seq<char>, i: int, rest: Seq<char>)
    requires
        lines_of(a).len() == lines_of(b).len(),
        0 <= i < lines_of(a).len(),
        forall|j: int|
            0 <= j < lines_of(a).len() && j != i ==> trim(#[trigger] lines_of(a)[j]) == trim(
                lines_of(b)[j],
            ),
        forall|j: int|
            0 <= j < i ==> !starts_with(trim(#[trigger] lines_of(a)[j]), "object "@)
                && !starts_with(trim(lines_of(a)[j]), "inherited "@),
        trim(lines_of(a)[i]) == "object "@ + rest,
        trim(lines_of(b)[i]) == "inherited "@ + rest,
    ensures
        spec_parse_dfm(a) == spec_parse_dfm(b),
{
    reveal_strlit("object ");
    reveal_strlit("inherited ");
    let la = lines_of(a);
    let lb = lines_of(b);
    let ta = trim(la[i]);
    let tb = trim(lb[i]);
    assert(ta.take(7) =~= "object "@);
    assert(ta.skip(7) =~= rest);
    assert(tb.take(10) =~= "inherited "@);
    assert(tb.skip(10) =~= rest);
    assert(!starts_with(tb, "object "@)) by {
        assert(tb[0] == 'i');
        if starts_with(tb, "object "@) {
            assert(tb.take(7)[0] == 'o');
        }
    }
    assert(opens_component(ta) && opens_component(tb));
    assert forall|j: int| 0 <= j < i implies !opens_component(trim(#[trigger] lb[j])) by {
        assert(trim(la[j]) == trim(lb[j]));
    }
    lemma_next_header_at(la, 0, i);
    lemma_next_header_at(lb, 0, i);
    assert(header_rest(ta) == header_rest(tb));
    if spec_parse_header(ta) is Some {
        lemma_body_same(la, lb, i + 1, i + 1, Map::empty(), Seq::empty());
    }
}

/// The number of components in the tree `c`: itself and all nested ones.
pub open spec fn component_count(c: SpecComponent) -> nat
    decreases c, 1int, 0int,
{
    1 + forest_count(c, c.children.len() as int)
}

/// The number of components in the first `k` children of `c` and in all
/// components nested in them.
pub open spec fn forest_count(c: SpecComponent, k: int) -> nat
    decreases c, 0int, k,
{
    if k <= 0 || k > c.children.len() {
        0
    } else {
        forest_count(c, k - 1) + component_count(c.children[k - 1])
    }
}

proof fn lemma_summaries_prefix_len(c: SpecComponent, indent: nat, k: int)
    requires
        0 <= k <= c.children.len(),
        forall|j: int|
            0 <= j < c.children.len() ==> (#[trigger] tree_lines(c.children[j], indent + 2)).len()
                == component_count(c.children[j]),
    ensures
        child_summaries(c, indent).take(k).flatten().len() == forest_count(c, k),
    decreases k,
{
    let cs = child_summaries(c, indent);
    if k == 0 {
        assert(cs.take(0) =~= Seq::<Seq<Seq<char>>>::empty());
    } else {
        lemma_summaries_prefix_len(c, indent, k - 1);
        assert(cs.take(k) =~= cs.take(k - 1).push(cs[k - 1]));
        cs.take(k - 1).lemma_flatten_push(cs[k - 1]);
        assert(cs[k - 1] == tree_lines(c.children[k - 1], indent + 2));
    }
}

/// The summary of a tree has exactly one line per component. Its first line
/// is that of the component itself: `indent` spaces, the name, `: ` and the
/// type. After it, each child, wherever it stands among its siblings, has
/// the whole summary of its subtree two spaces deeper, right after the
/// lines of the earlier children and their subtrees.
pub proof fn law_summary_shape(c: SpecComponent, indent: nat)
    ensures
        tree_lines(c, indent).len() == component_count(c),
        tree_lines(c, indent)[0] == Seq::new(indent, |i: int| ' ') + c.name + seq![':', ' ']
            + c.comp_type,
        forall|k: int|
            0 <= k < c.children.len() ==> tree_lines(c, indent).subrange(
                1int + forest_count(c, k),
                1int + forest_count(c, k + 1),
            ) == tree_lines(#[trigger] c.children[k], indent + 2),
    decreases c,
{
    let cs = child_summaries(c, indent);
    let n = c.children.len() as int;
    let t = tree_lines(c, indent);
    assert forall|j: int| 0 <= j < n implies (#[trigger] tree_lines(c.children[j], indent + 2)).len()
        == component_count(c.children[j]) by {
        law_summary_shape(c.children[j], indent + 2);
    }
    lemma_summaries_prefix_len(c, indent, n);
    assert(cs.take(n) =~= cs);
    assert(t[0] =~= Seq::new(indent, |i: int| ' ') + c.name + seq![':', ' '] + c.comp_type);
    assert forall|k: int| 0 <= k < n implies t.subrange(1int + forest_count(c, k), 1int + forest_count(c, k + 1))
        == tree_lines(#[trigger] c.children[k], indent + 2) by {
        let child = tree_lines(c.children[k], indent + 2);
        lemma_summaries_prefix_len(c, indent, k);
        assert(cs[k] == child);
        assert(cs =~= cs.take(k + 1) + cs.skip(k + 1));
        lemma_flatten_concat(cs.take(k + 1), cs.skip(k + 1));
        assert(cs.take(k + 1) =~= cs.take(k).push(cs[k]));
        cs.take(k).lemma_flatten_push(cs[k]);
        let before = cs.take(k).flatten();
        let after = cs.skip(k + 1).flatten();
        assert(t =~= seq![spec_summary_line(c, indent)] + before + child + after);
        assert(t.subrange(1int + forest_count(c, k), 1int + forest_count(c, k + 1)) =~= child);
    }
}

/// `true` and `false`, in any ASCII case, are the booleans.
pub proof fn law_boolean_values(v: Seq<char>)
    ensures
        eq_ignore_ascii_case(v, "true"@) ==> spec_parse_value(v) == SpecValue::Bool(true),
        eq_ignore_ascii_case(v, "false"@) ==> spec_parse_value(v) == SpecValue::Bool(false),
{
    reveal_strlit("true");
    reveal_strlit("false");
}

/// A line `key = value` (the key without `=`) gives the key and the value,
/// each trimmed.
pub proof fn law_property_line(key: Seq<char>, value: Seq<char>)
    requires
        !key.contains('='),
    ensures
        spec_parse_property(key + seq!['='] + value) == Some((trim(key), trim(value))),
{
    let line = key + seq!['='] + value;
    assert forall|j: int| 0 <= j < key.len() implies line[j] != '=' by {
        assert(line[j] == key[j]);
        if key[j] == '=' {
            assert(key.contains('='));
        }
    }
    lemma_first_index_of(line, '=', key.len() as int);
    assert(line.take(key.len() as int) =~= key);
    assert(line.skip(key.len() + 1int) =~= value);
}

/// A header line `object name: Type` or `inherited name: Type` (the name
/// without a colon) gives the name and the type, each trimmed.
pub proof fn law_header_line(keyword: Seq<char>, name: Seq<char>, ty: Seq<char>)
    requires
        keyword == "object "@ || keyword == "inherited "@,
        !name.contains(':'),
    ensures
        spec_parse_header(keyword + name + seq![':'] + ty) == Some((trim(name), trim(ty))),
{
    reveal_strlit("object ");
    reveal_strlit("inherited ");
    let t = keyword + name + seq![':'] + ty;
    let rest = name + seq![':'] + ty;
    assert(t =~= keyword + rest);
    assert(t.take(keyword.len() as int) =~= keyword);
    assert(t.skip(keyword.len() as int) =~= rest);
    if keyword == "inherited "@ {
        assert(t[0] == 'i');
        assert(!starts_with(t, "object "@)) by {
            if starts_with(t, "object "@) {
                assert(t.take(7)[0] == 'o');
            }
        }
    }
    assert(header_rest(t) == Some(rest));
    assert forall|j: int| 0 <= j < name.len() implies rest[j] != ':' by {
        assert(rest[j] == name[j]);
        if name[j] == ':' {
            assert(name.contains(':'));
        }
    }
    lemma_first_index_of(rest, ':', name.len() as int);
    assert(rest.take(name.len() as int) =~= name);
    assert(rest.skip(name.len() + 1int) =~= ty);
}

} // verus!
