//! Resolving custom component types to the VCL base types they derive from,
//! and reading settings from INI text.
use vstd::prelude::*;
use crate::map::{insert_keys, StrMap};
use crate::text::{
    ascii_lower_code, chars_eq_ignore_ascii_case, chars_of, chars_start_with_char,
    eq_ignore_ascii_case, find_char, first_index_of, lemma_eq_ignore_ascii_case, lines_chars,
    lines_of, slice_chars, starts_with, string_of, trim, trim_chars, views, is_ascii,
    ascii_lowercase, lemma_ascii_lowercase,
};

verus! {

broadcast use vstd::string::group_string_axioms;

// ---------------------------------------------------------------------------
// VCL base types
// ---------------------------------------------------------------------------

/// The VCL base types that end the resolution of a type's ancestry.
pub open spec fn vcl_base_names() -> Seq<Seq<char>> {
    seq![
        "TForm"@, "TPanel"@, "TGroupBox"@, "TLabel"@, "TEdit"@, "TMemo"@, "TButton"@,
        "TBitBtn"@, "TCheckBox"@, "TRadioButton"@, "TComboBox"@, "TListBox"@, "TStringGrid"@,
        "TPageControl"@, "TTabSheet"@, "TImage"@, "TScrollBox"@, "TSplitter"@, "TStatusBar"@,
        "TToolBar"@, "TMainMenu"@, "TPopupMenu"@, "TTimer"@, "TDataSource"@, "TDBGrid"@,
        "TDBEdit"@, "TDBMemo"@, "TDBComboBox"@, "TDBCheckBox"@, "TDBLookupComboBox"@,
        "TComponent"@, "TControl"@, "TWinControl"@, "TCustomControl"@,
        // Dialogs
        "TOpenDialog"@, "TSaveDialog"@, "TOpenPictureDialog"@, "TColorDialog"@,
        "TFontDialog"@, "TPrintDialog"@,
        // FireDAC
        "TFDConnection"@, "TFDQuery"@, "TFDTable"@, "TFDStoredProc"@,
    ]
}

/// The first VCL base type, from position `i` on, that equals `name` up to
/// ASCII case.
pub open spec fn base_match_from(name: Seq<char>, i: int) -> Option<Seq<char>>
    decreases vcl_base_names().len() - i,
{
    if i < 0 || i >= vcl_base_names().len() {
        None
    } else if eq_ignore_ascii_case(vcl_base_names()[i], name) {
        Some(vcl_base_names()[i])
    } else {
        base_match_from(name, i + 1)
    }
}

/// `name` is a VCL base type, up to ASCII case.
pub open spec fn is_vcl_base_name(name: Seq<char>) -> bool {
    base_match_from(name, 0) is Some
}

/// The VCL base type `name` stands for, in its usual casing; `name` itself
/// when it is none.
pub open spec fn vcl_base_spelling(name: Seq<char>) -> Seq<char> {
    match base_match_from(name, 0) {
        Some(b) => b,
        None => name,
    }
}

/// The table of VCL base types.
fn vcl_base_table() -> (t: Vec<&'static str>)
    ensures
        t@.map_values(|s: &str| s@) == vcl_base_names(),
{
    let t = vec![
        "TForm", "TPanel", "TGroupBox", "TLabel", "TEdit", "TMemo", "TButton", "TBitBtn",
        "TCheckBox", "TRadioButton", "TComboBox", "TListBox", "TStringGrid", "TPageControl",
        "TTabSheet", "TImage", "TScrollBox", "TSplitter", "TStatusBar", "TToolBar", "TMainMenu",
        "TPopupMenu", "TTimer", "TDataSource", "TDBGrid", "TDBEdit", "TDBMemo", "TDBComboBox",
        "TDBCheckBox", "TDBLookupComboBox", "TComponent", "TControl", "TWinControl",
        "TCustomControl", "TOpenDialog", "TSaveDialog", "TOpenPictureDialog", "TColorDialog",
        "TFontDialog", "TPrintDialog", "TFDConnection", "TFDQuery", "TFDTable", "TFDStoredProc",
    ];
    assert(t@.map_values(|s: &str| s@) =~= vcl_base_names());
    t
}

/// The first VCL base type equal to `name` up to ASCII case.
fn base_match(name: &[char]) -> (r: Option<&'static str>)
    ensures
        match r {
            Some(b) => base_match_from(name@, 0) == Some(b@),
            None => base_match_from(name@, 0) is None,
        },
{
    let table = vcl_base_table();
    let mut i: usize = 0;
    while i < table.len()
        invariant
            i <= table@.len(),
            table@.map_values(|s: &str| s@) == vcl_base_names(),
            base_match_from(name@, 0) == base_match_from(name@, i as int),
        decreases table@.len() - i,
    {
        assert(vcl_base_names()[i as int] == table@[i as int]@);
        if chars_eq_ignore_ascii_case(&chars_of(table[i]), name) {
            return Some(table[i]);
        }
        i = i + 1;
    }
    None
}

/// Whether `name` is a VCL base type, up to ASCII case.
pub fn is_vcl_base(name: &str) -> (b: bool)
    ensures
        b == is_vcl_base_name(name@),
{
    base_match(&chars_of(name)).is_some()
}

/// The usual spelling of the VCL base type that `name_lower` stands for, or
/// `name_lower` itself when it is none.
pub fn find_vcl_base_name(name_lower: &str) -> (r: String)
    ensures
        r@ == vcl_base_spelling(name_lower@),
{
    match base_match(&chars_of(name_lower)) {
        Some(b) => b.to_string(),
        None => name_lower.to_string(),
    }
}

// ---------------------------------------------------------------------------
// Type ancestry
// ---------------------------------------------------------------------------

/// What `str::to_lowercase` gives for a string (the Unicode lower-case
/// mapping of its characters).
pub uninterp spec fn unicode_lowercase(s: Seq<char>) -> Seq<char>;

/// `str::to_lowercase`. Trusted: the result depends on `s` alone and is
/// `unicode_lowercase(s@)`; on ASCII text it is the ASCII lower case (the
/// Unicode lower-case mapping of an ASCII letter is its ASCII lower case, and
/// other ASCII characters map to themselves); and it is at least as long as
/// `s`, since each character lower-cases to one or more characters. Nothing
/// more is stated of the mapping of other characters.
#[verifier::external_body]
fn to_lowercase(s: &str) -> (r: String)
    ensures
        r@ == unicode_lowercase(s@),
        is_ascii(s@) ==> r@ == ascii_lowercase(s@),
        r@.len() >= s@.len(),
{
    s.to_lowercase()
}

/// The lower case of a name as `str::to_lowercase` gives it: the ASCII lower
/// case for ASCII text.
pub open spec fn lowercase_of(s: Seq<char>) -> Seq<char> {
    if is_ascii(s) {
        ascii_lowercase(s)
    } else {
        unicode_lowercase(s)
    }
}

/// A custom type and the VCL base type it resolves to.
#[derive(Debug, PartialEq)]
pub struct AliasEntry {
    pub custom_type: String,
    pub vcl_base: String,
    pub depth: u32,
    pub source_file: String,
}

/// The mathematical value of an `AliasEntry`.
pub struct SpecAlias {
    pub custom_type: Seq<char>,
    pub vcl_base: Seq<char>,
    pub depth: int,
    pub source_file: Seq<char>,
}

impl View for AliasEntry {
    type V = SpecAlias;

    open spec fn view(&self) -> SpecAlias {
        SpecAlias {
            custom_type: self.custom_type@,
            vcl_base: self.vcl_base@,
            depth: self.depth as int,
            source_file: self.source_file@,
        }
    }
}

/// Types by lower-case name: `(name as written, parent type in lower case,
/// source file)`.
pub type TypeParents = StrMap<(String, String, String)>;

/// The mathematical value of a `TypeParents` map.
pub type ParentMap = Map<Seq<char>, (Seq<char>, Seq<char>, Seq<char>)>;

/// The values of a `TypeParents` map.
pub open spec fn parents_view(p: TypeParents) -> ParentMap {
    p@.map_values(|e: (String, String, String)| (e.0@, e.1@, e.2@))
}

/// Every key of `m` is the lower case of the name stored under it.
pub open spec fn keyed_by_lowercase_name(m: ParentMap) -> bool {
    forall|k: Seq<char>| #[trigger] m.dom().contains(k) ==> lowercase_of(m[k].0) == k
}

/// Every name stored in `m` is ASCII.
pub open spec fn ascii_names(m: ParentMap) -> bool {
    forall|k: Seq<char>| #[trigger] m.dom().contains(k) ==> is_ascii(m[k].0)
}

/// Every parent type stored in `m` is non-empty.
pub open spec fn parents_nonempty(m: ParentMap) -> bool {
    forall|k: Seq<char>| #[trigger] m.dom().contains(k) ==> m[k].1.len() > 0
}

/// An optional `TypeParents` is keyed by the lower case of its ASCII names
/// (vacuously so when absent).
pub open spec fn keyed_ascii(o: Option<TypeParents>) -> bool {
    match o {
        Some(p) => keyed_by_lowercase_name(parents_view(p)) && ascii_names(parents_view(p)),
        None => true,
    }
}

/// The most levels of ancestry that resolution follows.
pub const MAX_DEPTH: u32 = 10;

/// The `n`-th ancestor of `key`: `key` itself, its parent, its parent's
/// parent, and so on (meaningful while the names are in `m`).
pub open spec fn ancestor(m: ParentMap, key: Seq<char>, n: nat) -> Seq<char>
    decreases n,
{
    if n == 0 {
        key
    } else {
        m[ancestor(m, key, (n - 1) as nat)].1
    }
}

/// `key` and its first `d - 1` ancestors are in `m`, the `d`-th ancestor is a
/// VCL base type and no nearer one is, with `1 <= d <= MAX_DEPTH`.
pub open spec fn reaches_base_at(m: ParentMap, key: Seq<char>, d: nat) -> bool {
    &&& 1 <= d <= MAX_DEPTH
    &&& forall|j: nat| j < d ==> m.dom().contains(#[trigger] ancestor(m, key, j))
    &&& is_vcl_base_name(ancestor(m, key, d))
    &&& forall|j: nat| 1 <= j < d ==> !is_vcl_base_name(#[trigger] ancestor(m, key, j))
}

/// Resolving the type `key` (already in lower case): the entry for it when a
/// VCL base type is among its first `MAX_DEPTH` ancestors, else `None`.
pub open spec fn spec_resolve(m: ParentMap, key: Seq<char>) -> Option<SpecAlias> {
    if exists|d: nat| reaches_base_at(m, key, d) {
        let d = choose|d: nat| reaches_base_at(m, key, d);
        Some(
            SpecAlias {
                custom_type: m[key].0,
                vcl_base: vcl_base_spelling(ancestor(m, key, d)),
                depth: d as int,
                source_file: m[key].2,
            },
        )
    } else {
        None
    }
}

/// Once an ancestor repeats, the later ancestors repeat the ones between.
proof fn lemma_ancestor_cycle(m: ParentMap, key: Seq<char>, q: nat, p: nat, n: nat)
    requires
        q < p,
        ancestor(m, key, p) == ancestor(m, key, q),
        q <= n,
    ensures
        exists|k: nat| q <= k < p && ancestor(m, key, n) == #[trigger] ancestor(m, key, k),
    decreases n,
{
    if n < p {
    } else {
        lemma_ancestor_cycle(m, key, q, p, (n - 1) as nat);
        let k = choose|k: nat| q <= k < p && ancestor(m, key, (n - 1) as nat) == #[trigger] ancestor(m, key, k);
        assert(ancestor(m, key, n) == m[ancestor(m, key, (n - 1) as nat)].1);
        assert(ancestor(m, key, (k + 1) as nat) == m[ancestor(m, key, k)].1);
        if k + 1 < p {
            assert(ancestor(m, key, n) == ancestor(m, key, (k + 1) as nat));
        } else {
            assert(ancestor(m, key, n) == ancestor(m, key, q));
        }
    }
}

/// Whether `v` holds a string equal to `s`.
fn contains_string(v: &Vec<String>, s: &String) -> (b: bool)
    ensures
        b == exists|k: int| 0 <= k < v@.len() && (#[trigger] v@[k])@ == s@,
{
    let mut i: usize = 0;
    while i < v.len()
        invariant
            i <= v@.len(),
            forall|k: int| 0 <= k < i ==> (#[trigger] v@[k])@ != s@,
        decreases v@.len() - i,
    {
        if v[i] == *s {
            return true;
        }
        i = i + 1;
    }
    false
}

/// Resolves `name` (any case) to the VCL base type that its ancestry in
/// `parents` reaches within `MAX_DEPTH` levels, following parents
/// transitively and stopping on a cycle.
pub fn resolve_to_vcl_base(name: &str, parents: &TypeParents) -> (r: Option<AliasEntry>)
    ensures
        match r {
            Some(e) => spec_resolve(parents_view(*parents), lowercase_of(name@)) == Some(
                e@,
            ),
            None => spec_resolve(parents_view(*parents), lowercase_of(name@)) is None,
        },
{
    let key = to_lowercase(name);
    resolve_lower_key(key, parents)
}

/// Resolves the type whose lower-case name is `key` (see
/// `resolve_to_vcl_base`).
pub fn resolve_lower_key(key: String, parents: &TypeParents) -> (r: Option<AliasEntry>)
    ensures
        match r {
            Some(e) => spec_resolve(parents_view(*parents), key@) == Some(e@),
            None => spec_resolve(parents_view(*parents), key@) is None,
        },
{
    let ghost m = parents_view(*parents);
    let ghost k = key@;
    let (name_as_written, source) = match parents.get(key.as_str()) {
        None => {
            assert(!m.dom().contains(k));
            assert forall|d: nat| !reaches_base_at(m, k, d) by {
                if 1 <= d {
                    assert(ancestor(m, k, 0) == k);
                    assert(!m.dom().contains(ancestor(m, k, 0)));
                }
            }
            return None;
        },
        Some(e) => (e.0.clone(), e.2.clone()),
    };
    assert(m.dom().contains(k) && m[k].0 == name_as_written@ && m[k].2 == source@);
    let mut current: String = key;
    let mut depth: u32 = 0;
    let mut visited: Vec<String> = Vec::new();
    loop
        invariant
            m == parents_view(*parents),
            k == key@,
            m.dom().contains(k),
            m[k].0 == name_as_written@,
            m[k].2 == source@,
            depth <= MAX_DEPTH,
            current@ == ancestor(m, k, depth as nat),
            forall|j: nat| j < depth ==> m.dom().contains(#[trigger] ancestor(m, k, j)),
            forall|j: nat|
                1 <= j <= depth ==> !is_vcl_base_name(#[trigger] ancestor(m, k, j)),
            visited@.len() == depth,
            forall|i: int| 0 <= i < depth ==> (#[trigger] visited@[i])@ == ancestor(m, k, (i + 1) as nat),
        decreases MAX_DEPTH - depth,
    {
        if depth >= MAX_DEPTH {
            assert forall|d: nat| !reaches_base_at(m, k, d) by {
                if 1 <= d <= MAX_DEPTH {
                    assert(!is_vcl_base_name(ancestor(m, k, d)));
                }
            }
            return None;
        }
        let entry = match parents.get(current.as_str()) {
            None => {
                assert forall|d: nat| !reaches_base_at(m, k, d) by {
                    if 1 <= d <= depth {
                        assert(!is_vcl_base_name(ancestor(m, k, d)));
                    } else if d > depth {
                        assert(!m.dom().contains(ancestor(m, k, depth as nat)));
                    }
                }
                return None;
            },
            Some(e) => e,
        };
        let parent: &String = &entry.1;
        assert(parent@ == ancestor(m, k, (depth + 1) as nat));
        depth = depth + 1;
        if is_vcl_base(parent.as_str()) {
            let ghost d = depth as nat;
            assert(reaches_base_at(m, k, d));
            assert forall|d2: nat| reaches_base_at(m, k, d2) implies d2 == d by {
                if d2 < d {
                    assert(!is_vcl_base_name(ancestor(m, k, d2)));
                } else if d2 > d {
                    assert(!is_vcl_base_name(ancestor(m, k, d)));
                }
            }
            let base = find_vcl_base_name(parent.as_str());
            return Some(AliasEntry { custom_type: name_as_written, vcl_base: base, depth, source_file: source });
        }
        if contains_string(&visited, parent) {
            let ghost p = depth as nat;
            let ghost q = choose|i: int| 0 <= i < visited@.len() && (#[trigger] visited@[i])@ == parent@;
            let ghost qn = (q + 1) as nat;
            assert(ancestor(m, k, p) == ancestor(m, k, qn));
            assert forall|d: nat| !reaches_base_at(m, k, d) by {
                if 1 <= d <= p {
                    assert(!is_vcl_base_name(ancestor(m, k, d)));
                } else if d > p {
                    lemma_ancestor_cycle(m, k, qn, p, d);
                    let kk = choose|kk: nat| qn <= kk < p && ancestor(m, k, d) == #[trigger] ancestor(m, k, kk);
                    assert(!is_vcl_base_name(ancestor(m, k, kk)));
                }
            }
            return None;
        }
        visited.push(parent.clone());
        current = parent.clone();
    }
}

// ---------------------------------------------------------------------------
// The alias list
// ---------------------------------------------------------------------------

/// The map an optional `TypeParents` holds (empty for `None`).
pub open spec fn loaded_map(o: Option<TypeParents>) -> Map<Seq<char>, (String, String, String)> {
    match o {
        Some(m) => m@,
        None => Map::empty(),
    }
}

/// The keys, in order, of an optional `TypeParents` (none for `None`).
pub open spec fn loaded_keys(o: Option<TypeParents>) -> Seq<Seq<char>> {
    match o {
        Some(m) => m.key_seq(),
        None => Seq::empty(),
    }
}

/// The types known once `local` is laid over `public`: entries of `local`
/// replace those of `public` with the same key.
pub open spec fn merged_map(public: Option<TypeParents>, local: Option<TypeParents>) -> ParentMap {
    loaded_map(public).union_prefer_right(loaded_map(local)).map_values(
        |e: (String, String, String)| (e.0@, e.1@, e.2@),
    )
}

/// The keys of the merged types, in order: those of `public`, then the new
/// ones of `local`.
pub open spec fn merged_keys(public: Option<TypeParents>, local: Option<TypeParents>) -> Seq<
    Seq<char>,
> {
    insert_keys(insert_keys(Seq::empty(), loaded_keys(public)), loaded_keys(local))
}

/// The alias entry for the type known under `name`: none for a VCL base type
/// itself, else the result of resolving it.
pub open spec fn alias_for(m: ParentMap, name: Seq<char>) -> Option<SpecAlias> {
    if is_vcl_base_name(name) {
        None
    } else {
        spec_resolve(m, lowercase_of(name))
    }
}

/// The alias entries for the types `names` of `m`, in order.
pub open spec fn aliases_of(m: ParentMap, names: Seq<Seq<char>>) -> Seq<SpecAlias> {
    names.filter_map(|n: Seq<char>| alias_for(m, n))
}

/// Builds the alias list: the types of `public` (the shared database), with
/// those of `local` (the project's database) laid over them, each type that
/// is not itself a VCL base type and resolves giving one entry.
pub fn build_aliases(public: Option<TypeParents>, local: Option<TypeParents>) -> (r: Vec<
    AliasEntry,
>)
    ensures
        r@.map_values(|e: AliasEntry| e@) == aliases_of(
            merged_map(public, local),
            merged_keys(public, local),
        ),
        merged_keys(public, local).no_duplicates(),
        forall|k: Seq<char>|
            #[trigger] merged_keys(public, local).contains(k) <==> merged_map(
                public,
                local,
            ).dom().contains(k),
        keyed_ascii(public) && keyed_ascii(local) ==> ({
            &&& forall|i: int| 0 <= i < r@.len() ==> !is_vcl_base_name(#[trigger] r@[i].custom_type@)
            &&& forall|i: int, j: int|
                0 <= i < j < r@.len() ==> !eq_ignore_ascii_case(
                    #[trigger] r@[i].custom_type@,
                    #[trigger] r@[j].custom_type@,
                )
        }),
{
    let ghost pm = loaded_map(public);
    let ghost lm = loaded_map(local);
    let mut parents: TypeParents = StrMap::new();
    match public {
        Some(m) => parents.extend(m),
        None => {
            assert(parents@.union_prefer_right(Map::empty()) =~= parents@);
            assert(insert_keys(Seq::empty(), Seq::empty()) == Seq::<Seq<char>>::empty());
        },
    }
    assert(parents@ =~= Map::empty().union_prefer_right(pm));
    match local {
        Some(m) => parents.extend(m),
        None => {
            assert(parents@.union_prefer_right(Map::empty()) =~= parents@);
        },
    }
    assert(parents@ =~= pm.union_prefer_right(lm));
    let ghost m = parents_view(parents);
    assert(m =~= merged_map(public, local));
    let names = parents.keys();
    let ghost ks = names@.map_values(|k: String| k@);
    assert(ks == merged_keys(public, local));
    let mut entries: Vec<AliasEntry> = Vec::new();
    let mut i: usize = 0;
    while i < names.len()
        invariant
            i <= names@.len(),
            ks == names@.map_values(|k: String| k@),
            m == parents_view(parents),
            entries@.map_values(|e: AliasEntry| e@) == aliases_of(m, ks.take(i as int)),
        decreases names@.len() - i,
    {
        assert(ks.take(i + 1).drop_last() =~= ks.take(i as int));
        assert(ks.take(i + 1).last() == names@[i as int]@);
        let name = names[i].as_str();
        if !is_vcl_base(name) {
            match resolve_to_vcl_base(name, &parents) {
                Some(e) => {
                    let ghost e0 = entries@;
                    entries.push(e);
                    assert(entries@.map_values(|e: AliasEntry| e@) =~= e0.map_values(
                        |e: AliasEntry| e@,
                    ) + seq![e@]);
                },
                None => {},
            }
        }
        i = i + 1;
    }
    assert(ks.take(names@.len() as int) =~= ks);
    proof {
        if keyed_ascii(public) && keyed_ascii(local) {
            let out = aliases_of(m, ks);
            lemma_merged_keyed(public, local);
            assert forall|i: int| 0 <= i < ks.len() implies m.dom().contains(#[trigger] ks[i]) by {
                assert(ks.contains(ks[i]));
            }
            law_aliases_distinct(m, ks);
            assert forall|i: int| 0 <= i < entries@.len() implies #[trigger] entries@[i].custom_type@
                == out[i].custom_type by {
                assert(entries@.map_values(|e: AliasEntry| e@)[i] == entries@[i]@);
            }
        }
    }
    entries
}

/// The types that rows of `(name, parent, file)` describe, as
/// `type_parents_from_rows` builds them; a row that could not be read
/// (`None`) is skipped.
pub open spec fn rows_map(rows: Seq<Option<(Seq<char>, Seq<char>, Seq<char>)>>) -> ParentMap
    decreases rows.len(),
{
    if rows.len() == 0 {
        Map::empty()
    } else {
        let rest = rows_map(rows.drop_last());
        match rows.last() {
            Some((name, parent, file)) => rest.insert(
                lowercase_of(name),
                (name, lowercase_of(parent), file),
            ),
            None => rest,
        }
    }
}

/// The view of a row.
pub open spec fn row_view(r: Option<(String, String, String)>) -> Option<(Seq<char>, Seq<char>, Seq<char>)> {
    match r {
        Some((a, b, c)) => Some((a@, b@, c@)),
        None => None,
    }
}

/// Builds the type map from database rows of `(name, parent type, source
/// file)`: the key is the name in lower case, the parent is stored in lower
/// case, and a later row for the same key replaces an earlier one. When every
/// row read has a non-empty parent, every stored parent is non-empty.
pub fn type_parents_from_rows(rows: Vec<Option<(String, String, String)>>) -> (r: TypeParents)
    ensures
        parents_view(r) == rows_map(rows@.map_values(|x: Option<(String, String, String)>| row_view(x))),
        (forall|i: int|
            0 <= i < rows@.len() && #[trigger] rows@[i] is Some ==> (rows@[i]->0).1@.len() > 0)
            ==> parents_nonempty(parents_view(r)),
        keyed_by_lowercase_name(parents_view(r)),
        (forall|i: int|
            0 <= i < rows@.len() && #[trigger] rows@[i] is Some ==> is_ascii((rows@[i]->0).0@))
            ==> ascii_names(parents_view(r)),
{
    let ghost rv = rows@.map_values(|x: Option<(String, String, String)>| row_view(x));
    let ghost parents_given = forall|i: int|
        0 <= i < rows@.len() && #[trigger] rows@[i] is Some ==> (rows@[i]->0).1@.len() > 0;
    assert(parents_given ==> forall|i: int|
        0 <= i < rv.len() && #[trigger] rv[i] is Some ==> (rv[i]->0).1.len() > 0) by {
        if parents_given {
            assert forall|i: int| 0 <= i < rv.len() && #[trigger] rv[i] is Some implies (
            rv[i]->0).1.len() > 0 by {
                assert(rows@[i] is Some);
            }
        }
    }
    let mut map: TypeParents = StrMap::new();
    assert(parents_view(map) =~= Map::empty());
    assert(rv.take(0) =~= Seq::<Option<(Seq<char>, Seq<char>, Seq<char>)>>::empty());
    for row in it: rows.into_iter()
        invariant
            rv.len() == it.seq().len(),
            forall|j: int| 0 <= j < rv.len() ==> rv[j] == row_view(#[trigger] it.seq()[j]),
            parents_view(map) == rows_map(rv.take(it.index() as int)),
            parents_given ==> forall|i: int|
                0 <= i < rv.len() && #[trigger] rv[i] is Some ==> (rv[i]->0).1.len() > 0,
            parents_given ==> parents_nonempty(parents_view(map)),
    {
        let ghost done = it.index() as int;
        assert(rv.take(done + 1).drop_last() =~= rv.take(done));
        assert(rv.take(done + 1).last() == row_view(row));
        match row {
            Some((name, parent, file)) => {
                let ghost m0 = parents_view(map);
                let key = to_lowercase(name.as_str());
                let parent_lower = to_lowercase(parent.as_str());
                let ghost kv = key@;
                let ghost val = (name@, parent_lower@, file@);
                assert(parents_given ==> parent_lower@.len() > 0) by {
                    if parents_given {
                        assert(rv[done] is Some);
                    }
                }
                map.insert(key, (name, parent_lower, file));
                assert(parents_view(map) =~= m0.insert(kv, val));
            },
            None => {},
        }
    }
    assert(rv.take(rv.len() as int) =~= rv);
    proof {
        law_rows_map_keys(rv);
        if forall|i: int|
            0 <= i < rows@.len() && #[trigger] rows@[i] is Some ==> is_ascii((rows@[i]->0).0@) {
            assert forall|i: int| 0 <= i < rv.len() && #[trigger] rv[i] is Some implies is_ascii(
                (rv[i]->0).0,
            ) by {
                assert(rows@[i] is Some);
            }
        }
    }
    map
}

// ---------------------------------------------------------------------------
// INI settings
// ---------------------------------------------------------------------------

/// A trimmed INI line opens a section.
pub open spec fn is_section_line(t: Seq<char>) -> bool {
    starts_with(t, seq!['['])
}

/// Whether the lines before line `i` leave the reader inside the section
/// whose header line is `header`: the last section line before `i` equals
/// `header` up to ASCII case.
pub open spec fn in_section_before(lines: Seq<Seq<char>>, header: Seq<char>, i: int) -> bool
    decreases i,
{
    if i <= 0 {
        false
    } else if is_section_line(lines[i - 1]) {
        eq_ignore_ascii_case(lines[i - 1], header)
    } else {
        in_section_before(lines, header, i - 1)
    }
}

/// The value of the trimmed line `t` when it sets `key` (`key = value`,
/// the key compared up to ASCII case, split at the first `=`, both sides
/// trimmed).
pub open spec fn entry_value(t: Seq<char>, key: Seq<char>) -> Option<Seq<char>> {
    let k = first_index_of(t, '=');
    if k < t.len() && eq_ignore_ascii_case(trim(t.take(k)), key) {
        Some(trim(t.skip(k + 1)))
    } else {
        None
    }
}

/// The first value, from line `i` on, that sets `key` inside the section
/// `header` (lines already trimmed).
pub open spec fn ini_lookup(lines: Seq<Seq<char>>, header: Seq<char>, key: Seq<char>, i: int) -> Option<
    Seq<char>,
>
    decreases lines.len() - i,
{
    if i < 0 || i >= lines.len() {
        None
    } else if !is_section_line(lines[i]) && in_section_before(lines, header, i) && entry_value(
        lines[i],
        key,
    ) is Some {
        entry_value(lines[i], key)
    } else {
        ini_lookup(lines, header, key, i + 1)
    }
}

/// The value that `parse_ini_value` finds for `key` in `section`.
pub open spec fn spec_ini_value(content: Seq<char>, section: Seq<char>, key: Seq<char>) -> Option<
    Seq<char>,
> {
    ini_lookup(
        lines_of(content).map_values(|l: Seq<char>| trim(l)),
        seq!['['] + section + seq![']'],
        key,
        0,
    )
}

/// Finds the value of `key` in `[section]` of INI text: the first
/// `key = value` line (key and section compared up to ASCII case) inside
/// that section, its value trimmed.
pub fn parse_ini_value(content: &str, section: &str, key: &str) -> (r: Option<String>)
    ensures
        match r {
            Some(v) => spec_ini_value(content@, section@, key@) == Some(v@),
            None => spec_ini_value(content@, section@, key@) is None,
        },
{
    let mut header: Vec<char> = Vec::new();
    header.push('[');
    let sec = chars_of(section);
    let mut j: usize = 0;
    while j < sec.len()
        invariant
            j <= sec@.len(),
            header@ == seq!['['] + sec@.take(j as int),
        decreases sec@.len() - j,
    {
        header.push(sec[j]);
        assert(sec@.take(j + 1) =~= sec@.take(j as int).push(sec@[j as int]));
        assert(header@ =~= seq!['['] + sec@.take(j + 1));
        j = j + 1;
    }
    header.push(']');
    assert(sec@.take(sec@.len() as int) =~= sec@);
    assert(header@ =~= seq!['['] + section@ + seq![']']);
    let key_chars = chars_of(key);
    let raw = lines_chars(&chars_of(content));
    let ghost lines = views(raw@).map_values(|l: Seq<char>| trim(l));
    assert(lines =~= lines_of(content@).map_values(|l: Seq<char>| trim(l)));
    let mut in_section = false;
    let mut i: usize = 0;
    while i < raw.len()
        invariant
            i <= raw@.len(),
            lines == views(raw@).map_values(|l: Seq<char>| trim(l)),
            lines == lines_of(content@).map_values(|l: Seq<char>| trim(l)),
            header@ == seq!['['] + section@ + seq![']'],
            in_section == in_section_before(lines, header@, i as int),
            ini_lookup(lines, header@, key_chars@, 0) == ini_lookup(lines, header@, key_chars@, i as int),
            key_chars@ == key@,
        decreases raw@.len() - i,
    {
        let t = trim_chars(&raw[i]);
        assert(t@ == lines[i as int]);
        if chars_start_with_char(&t, '[') {
            in_section = chars_eq_ignore_ascii_case(&t, &header);
        } else if in_section {
            match find_char(&t, '=') {
                Some(idx) => {
                    let n = t.len();
                    let k = trim_chars(&slice_chars(&t, 0, idx));
                    assert(t@.subrange(0, idx as int) =~= t@.take(idx as int));
                    if chars_eq_ignore_ascii_case(&k, &key_chars) {
                        let v = trim_chars(&slice_chars(&t, idx + 1, n));
                        assert(t@.subrange(idx + 1, n as int) =~= t@.skip(idx + 1));
                        assert(!is_section_line(lines[i as int]));
                        assert(entry_value(lines[i as int], key@) == Some(v@));
                        assert(ini_lookup(lines, header@, key_chars@, i as int) == Some(v@));
                        assert(spec_ini_value(content@, section@, key@) == ini_lookup(
                            lines,
                            header@,
                            key_chars@,
                            0,
                        ));
                        return Some(string_of(&v));
                    }
                },
                None => {},
            }
        }
        i = i + 1;
    }
    None
}

// ---------------------------------------------------------------------------
// Laws
// ---------------------------------------------------------------------------

proof fn lemma_base_match_ignores_case(a: Seq<char>, b: Seq<char>, i: int)
    requires
        eq_ignore_ascii_case(a, b),
    ensures
        base_match_from(a, i) == base_match_from(b, i),
    decreases vcl_base_names().len() - i,
{
    if 0 <= i < vcl_base_names().len() {
        let t = vcl_base_names()[i];
        lemma_eq_ignore_ascii_case(t, a, b);
        lemma_eq_ignore_ascii_case(t, b, a);
        lemma_eq_ignore_ascii_case(a, b, t);
        lemma_base_match_ignores_case(a, b, i + 1);
    }
}

/// Whether a name is a VCL base type, and how it is spelled, does not depend
/// on its ASCII case.
pub proof fn law_vcl_base_ignores_case(a: Seq<char>, b: Seq<char>)
    requires
        eq_ignore_ascii_case(a, b),
    ensures
        is_vcl_base_name(a) == is_vcl_base_name(b),
        is_vcl_base_name(a) ==> vcl_base_spelling(a) == vcl_base_spelling(b),
{
    lemma_base_match_ignores_case(a, b, 0);
}

proof fn lemma_base_match_found(name: Seq<char>, i: int)
    requires
        0 <= i,
        base_match_from(name, i) is Some,
    ensures
        exists|j: int|
            i <= j < vcl_base_names().len() && base_match_from(name, i) == Some(
                #[trigger] vcl_base_names()[j],
            ),
    decreases vcl_base_names().len() - i,
{
    if !eq_ignore_ascii_case(vcl_base_names()[i], name) {
        lemma_base_match_found(name, i + 1);
    }
}

proof fn lemma_table_entry_is_base(j: int, i: int)
    requires
        0 <= i <= j < vcl_base_names().len(),
    ensures
        base_match_from(vcl_base_names()[j], i) is Some,
    decreases j - i,
{
    lemma_eq_ignore_ascii_case(vcl_base_names()[j], vcl_base_names()[j], vcl_base_names()[j]);
    if i < j && !eq_ignore_ascii_case(vcl_base_names()[i], vcl_base_names()[j]) {
        lemma_table_entry_is_base(j, i + 1);
    }
}

/// The usual spelling of a VCL base type is a VCL base type.
pub proof fn law_spelling_is_vcl_base(name: Seq<char>)
    requires
        is_vcl_base_name(name),
    ensures
        is_vcl_base_name(vcl_base_spelling(name)),
        eq_ignore_ascii_case(vcl_base_spelling(name), name),
{
    lemma_base_match_found(name, 0);
    let j = choose|j: int|
        0 <= j < vcl_base_names().len() && base_match_from(name, 0) == Some(
            #[trigger] vcl_base_names()[j],
        );
    lemma_table_entry_is_base(j, 0);
    lemma_base_match_spelled(name, 0);
}

proof fn lemma_base_match_spelled(name: Seq<char>, i: int)
    requires
        base_match_from(name, i) is Some,
    ensures
        eq_ignore_ascii_case(base_match_from(name, i)->0, name),
    decreases vcl_base_names().len() - i,
{
    if !eq_ignore_ascii_case(vcl_base_names()[i], name) {
        lemma_base_match_spelled(name, i + 1);
    }
}

/// A resolved entry names a VCL base type, at a depth from 1 to
/// `MAX_DEPTH`, and carries the name as written and the source file of the
/// type it resolves.
pub proof fn law_resolved_entry(m: ParentMap, key: Seq<char>)
    requires
        spec_resolve(m, key) is Some,
    ensures
        ({
            let e = spec_resolve(m, key)->0;
            &&& is_vcl_base_name(e.vcl_base)
            &&& 1 <= e.depth <= MAX_DEPTH
            &&& m.dom().contains(key)
            &&& e.custom_type == m[key].0
            &&& e.source_file == m[key].2
        }),
{
    let d = choose|d: nat| reaches_base_at(m, key, d);
    assert(ancestor(m, key, 0) == key);
    law_spelling_is_vcl_base(ancestor(m, key, d));
}

proof fn lemma_ancestor_shift(m: ParentMap, key: Seq<char>, n: nat)
    requires
        m.dom().contains(key),
    ensures
        ancestor(m, key, n + 1) == ancestor(m, m[key].1, n),
    decreases n,
{
    if n > 0 {
        lemma_ancestor_shift(m, key, (n - 1) as nat);
        assert(ancestor(m, key, n + 1) == m[ancestor(m, key, n)].1);
        assert(ancestor(m, m[key].1, n) == m[ancestor(m, m[key].1, (n - 1) as nat)].1);
    } else {
        assert(ancestor(m, key, 1) == m[ancestor(m, key, 0)].1);
    }
}

/// Resolution is transitive: when the parent of a type is not a VCL base
/// type and resolves at depth `d < MAX_DEPTH`, the type resolves to the same
/// base at depth `d + 1`.
pub proof fn law_resolve_through_parent(m: ParentMap, key: Seq<char>)
    requires
        m.dom().contains(key),
        !is_vcl_base_name(m[key].1),
        spec_resolve(m, m[key].1) is Some,
        (spec_resolve(m, m[key].1)->0).depth < MAX_DEPTH,
    ensures
        spec_resolve(m, key) == Some(
            SpecAlias {
                custom_type: m[key].0,
                vcl_base: (spec_resolve(m, m[key].1)->0).vcl_base,
                depth: (spec_resolve(m, m[key].1)->0).depth + 1,
                source_file: m[key].2,
            },
        ),
{
    let p = m[key].1;
    let d = choose|d: nat| reaches_base_at(m, p, d);
    assert forall|n: nat| ancestor(m, key, n + 1) == #[trigger] ancestor(m, p, n) by {
        lemma_ancestor_shift(m, key, n);
    }
    let d1 = (d + 1) as nat;
    assert(ancestor(m, key, d1) == ancestor(m, p, d));
    assert forall|j: nat| j < d1 implies m.dom().contains(#[trigger] ancestor(m, key, j)) by {
        if j > 0 {
            assert(ancestor(m, key, ((j - 1) as nat) + 1) == ancestor(m, p, (j - 1) as nat));
        }
    }
    assert forall|j: nat| 1 <= j < d1 implies !is_vcl_base_name(#[trigger] ancestor(m, key, j)) by {
        assert(ancestor(m, key, ((j - 1) as nat) + 1) == ancestor(m, p, (j - 1) as nat));
        if j == 1 {
            assert(ancestor(m, p, 0) == p);
        }
    }
    assert(reaches_base_at(m, key, d1));
    assert forall|d2: nat| reaches_base_at(m, key, d2) implies d2 == d1 by {
        if d2 < d1 {
            assert(!is_vcl_base_name(ancestor(m, key, d2)));
        } else if d2 > d1 {
            assert(!is_vcl_base_name(ancestor(m, key, d1)));
        }
    }
}

/// Resolving an ASCII name does not depend on its ASCII case.
pub proof fn law_resolve_ignores_ascii_case(m: ParentMap, a: Seq<char>, b: Seq<char>)
    requires
        is_ascii(a),
        eq_ignore_ascii_case(a, b),
    ensures
        lowercase_of(a) == lowercase_of(b),
        spec_resolve(m, lowercase_of(a)) == spec_resolve(m, lowercase_of(b)),
{
    lemma_ascii_lowercase(a, b);
}

/// A type that the map does not hold does not resolve.
pub proof fn law_unknown_type_is_none(m: ParentMap, key: Seq<char>)
    requires
        !m.dom().contains(key),
    ensures
        spec_resolve(m, key) is None,
{
    assert forall|d: nat| !reaches_base_at(m, key, d) by {
        assert(ancestor(m, key, 0) == key);
    }
}

/// The lower case of an ASCII name is ASCII and already in lower case.
pub proof fn law_lowercase_ascii_stable(s: Seq<char>)
    requires
        is_ascii(s),
    ensures
        is_ascii(lowercase_of(s)),
        lowercase_of(lowercase_of(s)) == lowercase_of(s),
{
    lemma_ascii_lowercase(s, s);
}

/// For an ASCII key in lower case (as the keys that `type_parents_from_rows`
/// builds from ASCII names are), the alias entry is the resolution of the
/// key itself.
pub proof fn law_alias_of_lowercase_key(m: ParentMap, k: Seq<char>)
    requires
        is_ascii(k),
        lowercase_of(k) == k,
    ensures
        alias_for(m, k) == (if is_vcl_base_name(k) {
            None
        } else {
            spec_resolve(m, k)
        }),
{
}

/// The alias list holds, for each of the `names` that has an entry, that
/// entry, and nothing else; each name gives at most one entry.
pub proof fn law_aliases_of_members(m: ParentMap, names: Seq<Seq<char>>)
    ensures
        forall|e: SpecAlias| #[trigger]
            aliases_of(m, names).contains(e) ==> exists|k: Seq<char>|
                #[trigger] names.contains(k) && alias_for(m, k) == Some(e),
        forall|k: Seq<char>| #[trigger]
            names.contains(k) && alias_for(m, k) is Some ==> aliases_of(m, names).contains(
                alias_for(m, k)->0,
            ),
        aliases_of(m, names).len() == names.filter(|k: Seq<char>| alias_for(m, k) is Some).len(),
    decreases names.len(),
{
    reveal(Seq::filter);
    if names.len() > 0 {
        let rest = names.drop_last();
        let last = names.last();
        law_aliases_of_members(m, rest);
        let out = aliases_of(m, names);
        let out_rest = aliases_of(m, rest);
        assert forall|k: Seq<char>| #[trigger] rest.contains(k) implies names.contains(k) by {
            let j = choose|j: int| 0 <= j < rest.len() && rest[j] == k;
            assert(names[j] == k);
        }
        assert forall|k: Seq<char>| #[trigger] names.contains(k) implies rest.contains(k) || k
            == last by {
            let j = choose|j: int| 0 <= j < names.len() && names[j] == k;
            if j < names.len() - 1 {
                assert(rest[j] == k);
            }
        }
        assert(names.contains(last)) by {
            assert(names[names.len() - 1] == last);
        }
        match alias_for(m, last) {
            Some(e) => {
                assert(out == out_rest + seq![e]);
                assert forall|x: SpecAlias| #[trigger] out.contains(x) implies exists|k: Seq<char>|
                    #[trigger] names.contains(k) && alias_for(m, k) == Some(x) by {
                    let j = choose|j: int| 0 <= j < out.len() && out[j] == x;
                    if j < out_rest.len() {
                        assert(out_rest[j] == x);
                        assert(out_rest.contains(x));
                    } else {
                        assert(x == e);
                    }
                }
                assert forall|k: Seq<char>| #[trigger]
                    names.contains(k) && alias_for(m, k) is Some implies out.contains(
                    alias_for(m, k)->0,
                ) by {
                    if k == last {
                        assert(out[out.len() - 1] == e);
                    } else {
                        let x = alias_for(m, k)->0;
                        assert(out_rest.contains(x));
                        let j = choose|j: int| 0 <= j < out_rest.len() && out_rest[j] == x;
                        assert(out[j] == x);
                    }
                }
            },
            None => {
                assert(out == out_rest);
            },
        }
    }
}

/// Every key of the map built from rows is the lower case of the name
/// stored under it; the stored names are ASCII when those of the rows are.
pub proof fn law_rows_map_keys(rows: Seq<Option<(Seq<char>, Seq<char>, Seq<char>)>>)
    ensures
        keyed_by_lowercase_name(rows_map(rows)),
        (forall|i: int| 0 <= i < rows.len() && #[trigger] rows[i] is Some ==> is_ascii((rows[i]->0).0))
            ==> ascii_names(rows_map(rows)),
    decreases rows.len(),
{
    if rows.len() > 0 {
        let rest = rows.drop_last();
        law_rows_map_keys(rest);
        if forall|i: int| 0 <= i < rows.len() && #[trigger] rows[i] is Some ==> is_ascii((rows[i]->0).0) {
            assert forall|i: int| 0 <= i < rest.len() && #[trigger] rest[i] is Some implies is_ascii(
                (rest[i]->0).0,
            ) by {
                assert(rows[i] == rest[i]);
            }
            assert(rows[rows.len() - 1] == rows.last());
        }
    }
}

/// In a map keyed by the lower case of its ASCII names, a key is its own
/// lower case, and it is a VCL base type exactly when its name is.
proof fn lemma_keyed_entry(m: ParentMap, k: Seq<char>)
    requires
        keyed_by_lowercase_name(m),
        ascii_names(m),
        m.dom().contains(k),
    ensures
        is_ascii(k),
        lowercase_of(k) == k,
        is_vcl_base_name(m[k].0) == is_vcl_base_name(k),
{
    let n = m[k].0;
    lemma_ascii_lowercase(n, n);
    law_vcl_base_ignores_case(n, k);
}

/// Laying one map over another keeps both properties: keys that are the
/// lower case of their names, and ASCII names.
proof fn lemma_merged_keyed(public: Option<TypeParents>, local: Option<TypeParents>)
    requires
        keyed_ascii(public),
        keyed_ascii(local),
    ensures
        keyed_by_lowercase_name(merged_map(public, local)),
        ascii_names(merged_map(public, local)),
{
    let m = merged_map(public, local);
    let pm = loaded_map(public);
    let lm = loaded_map(local);
    assert forall|k: Seq<char>| #[trigger] m.dom().contains(k) implies lowercase_of(m[k].0) == k
        && is_ascii(m[k].0) by {
        if lm.dom().contains(k) {
            let p = local->0;
            assert(parents_view(p).dom().contains(k));
            assert(m[k] == parents_view(p)[k]);
        } else {
            let p = public->0;
            assert(parents_view(p).dom().contains(k));
            assert(m[k] == parents_view(p)[k]);
        }
    }
}

/// In a map keyed by the lower case of its ASCII names (as the maps that
/// `type_parents_from_rows` builds from ASCII names are, and the merge of
/// two of them), the alias list over distinct keys of the map names no VCL
/// base type, and no two of its entries name types equal up to ASCII case.
pub proof fn law_aliases_distinct(m: ParentMap, names: Seq<Seq<char>>)
    requires
        keyed_by_lowercase_name(m),
        ascii_names(m),
        names.no_duplicates(),
        forall|i: int| 0 <= i < names.len() ==> m.dom().contains(#[trigger] names[i]),
    ensures
        forall|i: int|
            0 <= i < aliases_of(m, names).len() ==> !is_vcl_base_name(
                #[trigger] aliases_of(m, names)[i].custom_type,
            ),
        forall|i: int, j: int|
            0 <= i < j < aliases_of(m, names).len() ==> !eq_ignore_ascii_case(
                #[trigger] aliases_of(m, names)[i].custom_type,
                #[trigger] aliases_of(m, names)[j].custom_type,
            ),
    decreases names.len(),
{
    if names.len() > 0 {
        let rest = names.drop_last();
        let last = names.last();
        assert(names[names.len() - 1] == last);
        assert(rest.no_duplicates()) by {
            assert forall|i: int, j: int| 0 <= i < rest.len() && 0 <= j < rest.len() && i != j implies rest[i]
                != rest[j] by {
                assert(rest[i] == names[i] && rest[j] == names[j]);
            }
        }
        assert forall|i: int| 0 <= i < rest.len() implies m.dom().contains(#[trigger] rest[i]) by {
            assert(rest[i] == names[i]);
        }
        law_aliases_distinct(m, rest);
        let out = aliases_of(m, names);
        let out_rest = aliases_of(m, rest);
        match alias_for(m, last) {
            None => {
                assert(out == out_rest);
            },
            Some(e) => {
                assert(out == out_rest + seq![e]);
                lemma_keyed_entry(m, last);
                law_resolved_entry(m, last);
                law_aliases_of_members(m, rest);
                assert forall|i: int| 0 <= i < out_rest.len() implies !eq_ignore_ascii_case(
                    #[trigger] out_rest[i].custom_type,
                    e.custom_type,
                ) by {
                    let x = out_rest[i];
                    assert(out_rest.contains(x));
                    let k = choose|k: Seq<char>| #[trigger] rest.contains(k) && alias_for(m, k) == Some(x);
                    let jk = choose|jk: int| 0 <= jk < rest.len() && rest[jk] == k;
                    assert(names[jk] == k);
                    lemma_keyed_entry(m, k);
                    law_resolved_entry(m, k);
                    if eq_ignore_ascii_case(x.custom_type, e.custom_type) {
                        lemma_ascii_lowercase(m[k].0, m[last].0);
                        assert(names[jk] == names[names.len() - 1]);
                    }
                }
                assert forall|i: int| 0 <= i < out.len() implies !is_vcl_base_name(
                    #[trigger] out[i].custom_type,
                ) by {
                    if i < out_rest.len() {
                        assert(out[i] == out_rest[i]);
                    }
                }
                assert forall|i: int, j: int| 0 <= i < j < out.len() implies !eq_ignore_ascii_case(
                    #[trigger] out[i].custom_type,
                    #[trigger] out[j].custom_type,
                ) by {
                    assert(out[i] == out_rest[i]);
                    if j < out_rest.len() {
                        assert(out[j] == out_rest[j]);
                    } else {
                        assert(out[j] == e);
                    }
                }
            },
        }
    }
}

proof fn lemma_in_section_ignores_case(lines: Seq<Seq<char>>, h1: Seq<char>, h2: Seq<char>, i: int)
    requires
        eq_ignore_ascii_case(h1, h2),
    ensures
        in_section_before(lines, h1, i) == in_section_before(lines, h2, i),
    decreases i,
{
    if i > 0 {
        lemma_eq_ignore_ascii_case(lines[i - 1], h1, h2);
        lemma_eq_ignore_ascii_case(lines[i - 1], h2, h1);
        lemma_eq_ignore_ascii_case(h1, h2, h1);
        lemma_in_section_ignores_case(lines, h1, h2, i - 1);
    }
}

proof fn lemma_ini_lookup_ignores_case(
    lines: Seq<Seq<char>>,
    h1: Seq<char>,
    h2: Seq<char>,
    k1: Seq<char>,
    k2: Seq<char>,
    i: int,
)
    requires
        eq_ignore_ascii_case(h1, h2),
        eq_ignore_ascii_case(k1, k2),
    ensures
        ini_lookup(lines, h1, k1, i) == ini_lookup(lines, h2, k2, i),
    decreases lines.len() - i,
{
    if 0 <= i < lines.len() {
        lemma_in_section_ignores_case(lines, h1, h2, i);
        let t = lines[i];
        let k = first_index_of(t, '=');
        lemma_eq_ignore_ascii_case(trim(t.take(k)), k1, k2);
        lemma_eq_ignore_ascii_case(trim(t.take(k)), k2, k1);
        lemma_eq_ignore_ascii_case(k1, k2, k1);
        assert(entry_value(t, k1) == entry_value(t, k2));
        lemma_ini_lookup_ignores_case(lines, h1, h2, k1, k2, i + 1);
    }
}

/// Looking up a setting does not depend on the ASCII case of the section or
/// of the key.
pub proof fn law_ini_value_ignores_case(
    content: Seq<char>,
    s1: Seq<char>,
    s2: Seq<char>,
    k1: Seq<char>,
    k2: Seq<char>,
)
    requires
        eq_ignore_ascii_case(s1, s2),
        eq_ignore_ascii_case(k1, k2),
    ensures
        spec_ini_value(content, s1, k1) == spec_ini_value(content, s2, k2),
{
    let h1 = seq!['['] + s1 + seq![']'];
    let h2 = seq!['['] + s2 + seq![']'];
    assert forall|i: int| 0 <= i < h1.len() implies ascii_lower_code(#[trigger] h1[i])
        == ascii_lower_code(h2[i]) by {
        if 1 <= i <= s1.len() {
            assert(h1[i] == s1[i - 1] && h2[i] == s2[i - 1]);
        }
    }
    lemma_ini_lookup_ignores_case(
        lines_of(content).map_values(|l: Seq<char>| trim(l)),
        h1,
        h2,
        k1,
        k2,
        0,
    );
}

// ---------------------------------------------------------------------------
// The VCL base list
// ---------------------------------------------------------------------------

/// `name` is a VCL base type and is its own usual spelling.
pub open spec fn is_listed_spelling(name: Seq<char>) -> bool {
    is_vcl_base_name(name) && vcl_base_spelling(name) == name
}

/// Two names that differ, up to ASCII case, at position `d` are not equal up
/// to ASCII case.
proof fn lemma_differ_at(a: Seq<char>, b: Seq<char>, d: int)
    requires
        0 <= d < a.len(),
        ascii_lower_code(a[d]) != ascii_lower_code(b[d]),
    ensures
        !eq_ignore_ascii_case(a, b),
{
}

#[verifier::spinoff_prover]
#[verifier::rlimit(100)]
proof fn lemma_listed_spellings_0()
    ensures
        is_listed_spelling("TForm"@),
        is_listed_spelling("TPanel"@),
        is_listed_spelling("TGroupBox"@),
        is_listed_spelling("TLabel"@),
        is_listed_spelling("TEdit"@),
        is_listed_spelling("TMemo"@),
        is_listed_spelling("TButton"@),
        is_listed_spelling("TBitBtn"@),
        is_listed_spelling("TCheckBox"@),
        is_listed_spelling("TRadioButton"@),
        is_listed_spelling("TComboBox"@),
{
    reveal_strlit("TForm");
    reveal_strlit("TPanel");
    reveal_strlit("TGroupBox");
    reveal_strlit("TLabel");
    reveal_strlit("TEdit");
    reveal_strlit("TMemo");
    reveal_strlit("TButton");
    reveal_strlit("TBitBtn");
    reveal_strlit("TCheckBox");
    reveal_strlit("TRadioButton");
    reveal_strlit("TComboBox");
    reveal_strlit("TListBox");
    reveal_strlit("TStringGrid");
    reveal_strlit("TPageControl");
    reveal_strlit("TTabSheet");
    reveal_strlit("TImage");
    reveal_strlit("TScrollBox");
    reveal_strlit("TSplitter");
    reveal_strlit("TStatusBar");
    reveal_strlit("TToolBar");
    reveal_strlit("TMainMenu");
    reveal_strlit("TPopupMenu");
    reveal_strlit("TTimer");
    reveal_strlit("TDataSource");
    reveal_strlit("TDBGrid");
    reveal_strlit("TDBEdit");
    reveal_strlit("TDBMemo");
    reveal_strlit("TDBComboBox");
    reveal_strlit("TDBCheckBox");
    reveal_strlit("TDBLookupComboBox");
    reveal_strlit("TComponent");
    reveal_strlit("TControl");
    reveal_strlit("TWinControl");
    reveal_strlit("TCustomControl");
    reveal_strlit("TOpenDialog");
    reveal_strlit("TSaveDialog");
    reveal_strlit("TOpenPictureDialog");
    reveal_strlit("TColorDialog");
    reveal_strlit("TFontDialog");
    reveal_strlit("TPrintDialog");
    reveal_strlit("TFDConnection");
    reveal_strlit("TFDQuery");
    reveal_strlit("TFDTable");
    reveal_strlit("TFDStoredProc");
    lemma_differ_at("TPanel"@, "TLabel"@, 1);
    lemma_differ_at("TForm"@, "TEdit"@, 1);
    lemma_differ_at("TForm"@, "TMemo"@, 1);
    lemma_differ_at("TEdit"@, "TMemo"@, 1);
    lemma_differ_at("TButton"@, "TBitBtn"@, 2);
    lemma_differ_at("TGroupBox"@, "TCheckBox"@, 1);
    lemma_differ_at("TGroupBox"@, "TComboBox"@, 1);
    lemma_differ_at("TCheckBox"@, "TComboBox"@, 2);
    reveal_with_fuel(base_match_from, 45);
}

#[verifier::spinoff_prover]
#[verifier::rlimit(100)]
proof fn lemma_listed_spellings_1()
    ensures
        is_listed_spelling("TListBox"@),
        is_listed_spelling("TStringGrid"@),
        is_listed_spelling("TPageControl"@),
        is_listed_spelling("TTabSheet"@),
        is_listed_spelling("TImage"@),
        is_listed_spelling("TScrollBox"@),
        is_listed_spelling("TSplitter"@),
        is_listed_spelling("TStatusBar"@),
        is_listed_spelling("TToolBar"@),
        is_listed_spelling("TMainMenu"@),
        is_listed_spelling("TPopupMenu"@),
{
    reveal_strlit("TForm");
    reveal_strlit("TPanel");
    reveal_strlit("TGroupBox");
    reveal_strlit("TLabel");
    reveal_strlit("TEdit");
    reveal_strlit("TMemo");
    reveal_strlit("TButton");
    reveal_strlit("TBitBtn");
    reveal_strlit("TCheckBox");
    reveal_strlit("TRadioButton");
    reveal_strlit("TComboBox");
    reveal_strlit("TListBox");
    reveal_strlit("TStringGrid");
    reveal_strlit("TPageControl");
    reveal_strlit("TTabSheet");
    reveal_strlit("TImage");
    reveal_strlit("TScrollBox");
    reveal_strlit("TSplitter");
    reveal_strlit("TStatusBar");
    reveal_strlit("TToolBar");
    reveal_strlit("TMainMenu");
    reveal_strlit("TPopupMenu");
    reveal_strlit("TTimer");
    reveal_strlit("TDataSource");
    reveal_strlit("TDBGrid");
    reveal_strlit("TDBEdit");
    reveal_strlit("TDBMemo");
    reveal_strlit("TDBComboBox");
    reveal_strlit("TDBCheckBox");
    reveal_strlit("TDBLookupComboBox");
    reveal_strlit("TComponent");
    reveal_strlit("TControl");
    reveal_strlit("TWinControl");
    reveal_strlit("TCustomControl");
    reveal_strlit("TOpenDialog");
    reveal_strlit("TSaveDialog");
    reveal_strlit("TOpenPictureDialog");
    reveal_strlit("TColorDialog");
    reveal_strlit("TFontDialog");
    reveal_strlit("TPrintDialog");
    reveal_strlit("TFDConnection");
    reveal_strlit("TFDQuery");
    reveal_strlit("TFDTable");
    reveal_strlit("TFDStoredProc");
    lemma_differ_at("TRadioButton"@, "TPageControl"@, 1);
    lemma_differ_at("TGroupBox"@, "TTabSheet"@, 1);
    lemma_differ_at("TCheckBox"@, "TTabSheet"@, 1);
    lemma_differ_at("TComboBox"@, "TTabSheet"@, 1);
    lemma_differ_at("TPanel"@, "TImage"@, 1);
    lemma_differ_at("TLabel"@, "TImage"@, 1);
    lemma_differ_at("TGroupBox"@, "TSplitter"@, 1);
    lemma_differ_at("TCheckBox"@, "TSplitter"@, 1);
    lemma_differ_at("TComboBox"@, "TSplitter"@, 1);
    lemma_differ_at("TTabSheet"@, "TSplitter"@, 1);
    lemma_differ_at("TScrollBox"@, "TStatusBar"@, 2);
    lemma_differ_at("TListBox"@, "TToolBar"@, 1);
    lemma_differ_at("TGroupBox"@, "TMainMenu"@, 1);
    lemma_differ_at("TCheckBox"@, "TMainMenu"@, 1);
    lemma_differ_at("TComboBox"@, "TMainMenu"@, 1);
    lemma_differ_at("TTabSheet"@, "TMainMenu"@, 1);
    lemma_differ_at("TSplitter"@, "TMainMenu"@, 1);
    lemma_differ_at("TScrollBox"@, "TPopupMenu"@, 1);
    lemma_differ_at("TStatusBar"@, "TPopupMenu"@, 1);
    reveal_with_fuel(base_match_from, 45);
}

#[verifier::spinoff_prover]
#[verifier::rlimit(100)]
proof fn lemma_listed_spellings_2()
    ensures
        is_listed_spelling("TTimer"@),
        is_listed_spelling("TDataSource"@),
        is_listed_spelling("TDBGrid"@),
        is_listed_spelling("TDBEdit"@),
        is_listed_spelling("TDBMemo"@),
        is_listed_spelling("TDBComboBox"@),
        is_listed_spelling("TDBCheckBox"@),
        is_listed_spelling("TDBLookupComboBox"@),
        is_listed_spelling("TComponent"@),
        is_listed_spelling("TControl"@),
        is_listed_spelling("TWinControl"@),
{
    reveal_strlit("TForm");
    reveal_strlit("TPanel");
    reveal_strlit("TGroupBox");
    reveal_strlit("TLabel");
    reveal_strlit("TEdit");
    reveal_strlit("TMemo");
    reveal_strlit("TButton");
    reveal_strlit("TBitBtn");
    reveal_strlit("TCheckBox");
    reveal_strlit("TRadioButton");
    reveal_strlit("TComboBox");
    reveal_strlit("TListBox");
    reveal_strlit("TStringGrid");
    reveal_strlit("TPageControl");
    reveal_strlit("TTabSheet");
    reveal_strlit("TImage");
    reveal_strlit("TScrollBox");
    reveal_strlit("TSplitter");
    reveal_strlit("TStatusBar");
    reveal_strlit("TToolBar");
    reveal_strlit("TMainMenu");
    reveal_strlit("TPopupMenu");
    reveal_strlit("TTimer");
    reveal_strlit("TDataSource");
    reveal_strlit("TDBGrid");
    reveal_strlit("TDBEdit");
    reveal_strlit("TDBMemo");
    reveal_strlit("TDBComboBox");
    reveal_strlit("TDBCheckBox");
    reveal_strlit("TDBLookupComboBox");
    reveal_strlit("TComponent");
    reveal_strlit("TControl");
    reveal_strlit("TWinControl");
    reveal_strlit("TCustomControl");
    reveal_strlit("TOpenDialog");
    reveal_strlit("TSaveDialog");
    reveal_strlit("TOpenPictureDialog");
    reveal_strlit("TColorDialog");
    reveal_strlit("TFontDialog");
    reveal_strlit("TPrintDialog");
    reveal_strlit("TFDConnection");
    reveal_strlit("TFDQuery");
    reveal_strlit("TFDTable");
    reveal_strlit("TFDStoredProc");
    lemma_differ_at("TPanel"@, "TTimer"@, 1);
    lemma_differ_at("TLabel"@, "TTimer"@, 1);
    lemma_differ_at("TImage"@, "TTimer"@, 1);
    lemma_differ_at("TStringGrid"@, "TDataSource"@, 1);
    lemma_differ_at("TButton"@, "TDBGrid"@, 1);
    lemma_differ_at("TBitBtn"@, "TDBGrid"@, 1);
    lemma_differ_at("TButton"@, "TDBEdit"@, 1);
    lemma_differ_at("TBitBtn"@, "TDBEdit"@, 1);
    lemma_differ_at("TDBGrid"@, "TDBEdit"@, 3);
    lemma_differ_at("TButton"@, "TDBMemo"@, 1);
    lemma_differ_at("TBitBtn"@, "TDBMemo"@, 1);
    lemma_differ_at("TDBGrid"@, "TDBMemo"@, 3);
    lemma_differ_at("TDBEdit"@, "TDBMemo"@, 3);
    lemma_differ_at("TStringGrid"@, "TDBComboBox"@, 1);
    lemma_differ_at("TDataSource"@, "TDBComboBox"@, 2);
    lemma_differ_at("TStringGrid"@, "TDBCheckBox"@, 1);
    lemma_differ_at("TDataSource"@, "TDBCheckBox"@, 2);
    lemma_differ_at("TDBComboBox"@, "TDBCheckBox"@, 4);
    lemma_differ_at("TScrollBox"@, "TComponent"@, 1);
    lemma_differ_at("TStatusBar"@, "TComponent"@, 1);
    lemma_differ_at("TPopupMenu"@, "TComponent"@, 1);
    lemma_differ_at("TListBox"@, "TControl"@, 1);
    lemma_differ_at("TToolBar"@, "TControl"@, 1);
    lemma_differ_at("TStringGrid"@, "TWinControl"@, 1);
    lemma_differ_at("TDataSource"@, "TWinControl"@, 1);
    lemma_differ_at("TDBComboBox"@, "TWinControl"@, 1);
    lemma_differ_at("TDBCheckBox"@, "TWinControl"@, 1);
    reveal_with_fuel(base_match_from, 45);
}

#[verifier::spinoff_prover]
#[verifier::rlimit(100)]
proof fn lemma_listed_spellings_3()
    ensures
        is_listed_spelling("TCustomControl"@),
        is_listed_spelling("TOpenDialog"@),
        is_listed_spelling("TSaveDialog"@),
        is_listed_spelling("TOpenPictureDialog"@),
        is_listed_spelling("TColorDialog"@),
        is_listed_spelling("TFontDialog"@),
        is_listed_spelling("TPrintDialog"@),
        is_listed_spelling("TFDConnection"@),
        is_listed_spelling("TFDQuery"@),
        is_listed_spelling("TFDTable"@),
        is_listed_spelling("TFDStoredProc"@),
{
    reveal_strlit("TForm");
    reveal_strlit("TPanel");
    reveal_strlit("TGroupBox");
    reveal_strlit("TLabel");
    reveal_strlit("TEdit");
    reveal_strlit("TMemo");
    reveal_strlit("TButton");
    reveal_strlit("TBitBtn");
    reveal_strlit("TCheckBox");
    reveal_strlit("TRadioButton");
    reveal_strlit("TComboBox");
    reveal_strlit("TListBox");
    reveal_strlit("TStringGrid");
    reveal_strlit("TPageControl");
    reveal_strlit("TTabSheet");
    reveal_strlit("TImage");
    reveal_strlit("TScrollBox");
    reveal_strlit("TSplitter");
    reveal_strlit("TStatusBar");
    reveal_strlit("TToolBar");
    reveal_strlit("TMainMenu");
    reveal_strlit("TPopupMenu");
    reveal_strlit("TTimer");
    reveal_strlit("TDataSource");
    reveal_strlit("TDBGrid");
    reveal_strlit("TDBEdit");
    reveal_strlit("TDBMemo");
    reveal_strlit("TDBComboBox");
    reveal_strlit("TDBCheckBox");
    reveal_strlit("TDBLookupComboBox");
    reveal_strlit("TComponent");
    reveal_strlit("TControl");
    reveal_strlit("TWinControl");
    reveal_strlit("TCustomControl");
    reveal_strlit("TOpenDialog");
    reveal_strlit("TSaveDialog");
    reveal_strlit("TOpenPictureDialog");
    reveal_strlit("TColorDialog");
    reveal_strlit("TFontDialog");
    reveal_strlit("TPrintDialog");
    reveal_strlit("TFDConnection");
    reveal_strlit("TFDQuery");
    reveal_strlit("TFDTable");
    reveal_strlit("TFDStoredProc");
    lemma_differ_at("TStringGrid"@, "TOpenDialog"@, 1);
    lemma_differ_at("TDataSource"@, "TOpenDialog"@, 1);
    lemma_differ_at("TDBComboBox"@, "TOpenDialog"@, 1);
    lemma_differ_at("TDBCheckBox"@, "TOpenDialog"@, 1);
    lemma_differ_at("TWinControl"@, "TOpenDialog"@, 1);
    lemma_differ_at("TStringGrid"@, "TSaveDialog"@, 2);
    lemma_differ_at("TDataSource"@, "TSaveDialog"@, 1);
    lemma_differ_at("TDBComboBox"@, "TSaveDialog"@, 1);
    lemma_differ_at("TDBCheckBox"@, "TSaveDialog"@, 1);
    lemma_differ_at("TWinControl"@, "TSaveDialog"@, 1);
    lemma_differ_at("TOpenDialog"@, "TSaveDialog"@, 1);
    lemma_differ_at("TRadioButton"@, "TColorDialog"@, 1);
    lemma_differ_at("TPageControl"@, "TColorDialog"@, 1);
    lemma_differ_at("TStringGrid"@, "TFontDialog"@, 1);
    lemma_differ_at("TDataSource"@, "TFontDialog"@, 1);
    lemma_differ_at("TDBComboBox"@, "TFontDialog"@, 1);
    lemma_differ_at("TDBCheckBox"@, "TFontDialog"@, 1);
    lemma_differ_at("TWinControl"@, "TFontDialog"@, 1);
    lemma_differ_at("TOpenDialog"@, "TFontDialog"@, 1);
    lemma_differ_at("TSaveDialog"@, "TFontDialog"@, 1);
    lemma_differ_at("TRadioButton"@, "TPrintDialog"@, 1);
    lemma_differ_at("TPageControl"@, "TPrintDialog"@, 2);
    lemma_differ_at("TColorDialog"@, "TPrintDialog"@, 1);
    lemma_differ_at("TListBox"@, "TFDQuery"@, 1);
    lemma_differ_at("TToolBar"@, "TFDQuery"@, 1);
    lemma_differ_at("TControl"@, "TFDQuery"@, 1);
    lemma_differ_at("TListBox"@, "TFDTable"@, 1);
    lemma_differ_at("TToolBar"@, "TFDTable"@, 1);
    lemma_differ_at("TControl"@, "TFDTable"@, 1);
    lemma_differ_at("TFDQuery"@, "TFDTable"@, 3);
    lemma_differ_at("TFDConnection"@, "TFDStoredProc"@, 3);
    reveal_with_fuel(base_match_from, 45);
}

/// Each of the VCL base types is recognised as one, and its usual spelling
/// is the one listed here.
pub proof fn law_vcl_base_list()
    ensures
        is_listed_spelling("TForm"@),
        is_listed_spelling("TPanel"@),
        is_listed_spelling("TGroupBox"@),
        is_listed_spelling("TLabel"@),
        is_listed_spelling("TEdit"@),
        is_listed_spelling("TMemo"@),
        is_listed_spelling("TButton"@),
        is_listed_spelling("TBitBtn"@),
        is_listed_spelling("TCheckBox"@),
        is_listed_spelling("TRadioButton"@),
        is_listed_spelling("TComboBox"@),
        is_listed_spelling("TListBox"@),
        is_listed_spelling("TStringGrid"@),
        is_listed_spelling("TPageControl"@),
        is_listed_spelling("TTabSheet"@),
        is_listed_spelling("TImage"@),
        is_listed_spelling("TScrollBox"@),
        is_listed_spelling("TSplitter"@),
        is_listed_spelling("TStatusBar"@),
        is_listed_spelling("TToolBar"@),
        is_listed_spelling("TMainMenu"@),
        is_listed_spelling("TPopupMenu"@),
        is_listed_spelling("TTimer"@),
        is_listed_spelling("TDataSource"@),
        is_listed_spelling("TDBGrid"@),
        is_listed_spelling("TDBEdit"@),
        is_listed_spelling("TDBMemo"@),
        is_listed_spelling("TDBComboBox"@),
        is_listed_spelling("TDBCheckBox"@),
        is_listed_spelling("TDBLookupComboBox"@),
        is_listed_spelling("TComponent"@),
        is_listed_spelling("TControl"@),
        is_listed_spelling("TWinControl"@),
        is_listed_spelling("TCustomControl"@),
        is_listed_spelling("TOpenDialog"@),
        is_listed_spelling("TSaveDialog"@),
        is_listed_spelling("TOpenPictureDialog"@),
        is_listed_spelling("TColorDialog"@),
        is_listed_spelling("TFontDialog"@),
        is_listed_spelling("TPrintDialog"@),
        is_listed_spelling("TFDConnection"@),
        is_listed_spelling("TFDQuery"@),
        is_listed_spelling("TFDTable"@),
        is_listed_spelling("TFDStoredProc"@),
{
    lemma_listed_spellings_0();
    lemma_listed_spellings_1();
    lemma_listed_spellings_2();
    lemma_listed_spellings_3();
}

/// A type whose parent is a VCL base type resolves to that base, in its
/// usual spelling, at depth 1.
pub proof fn law_resolve_base_parent(m: ParentMap, key: Seq<char>)
    requires
        m.dom().contains(key),
        is_vcl_base_name(m[key].1),
    ensures
        spec_resolve(m, key) == Some(
            SpecAlias {
                custom_type: m[key].0,
                vcl_base: vcl_base_spelling(m[key].1),
                depth: 1,
                source_file: m[key].2,
            },
        ),
{
    assert(ancestor(m, key, 0) == key);
    assert(ancestor(m, key, 1) == m[key].1);
    assert(reaches_base_at(m, key, 1));
    assert forall|d: nat| reaches_base_at(m, key, d) implies d == 1 by {
        if d > 1 {
            assert(!is_vcl_base_name(ancestor(m, key, 1)));
        }
    }
}

/// A type whose parent is, up to ASCII case, one of the listed VCL base
/// types resolves at depth 1 to that base as listed.
pub proof fn law_resolve_listed_parent(m: ParentMap, key: Seq<char>, base: Seq<char>)
    requires
        m.dom().contains(key),
        is_listed_spelling(base),
        eq_ignore_ascii_case(base, m[key].1),
    ensures
        spec_resolve(m, key) == Some(
            SpecAlias { custom_type: m[key].0, vcl_base: base, depth: 1, source_file: m[key].2 },
        ),
{
    law_vcl_base_ignores_case(base, m[key].1);
    law_resolve_base_parent(m, key);
}

/// The listed VCL base types are the only ones: a name is a VCL base type
/// only when it equals one of them up to ASCII case.
pub proof fn law_only_listed_bases(name: Seq<char>)
    ensures
        is_vcl_base_name(name) ==> (
            eq_ignore_ascii_case("TForm"@, name)
            || eq_ignore_ascii_case("TPanel"@, name)
            || eq_ignore_ascii_case("TGroupBox"@, name)
            || eq_ignore_ascii_case("TLabel"@, name)
            || eq_ignore_ascii_case("TEdit"@, name)
            || eq_ignore_ascii_case("TMemo"@, name)
            || eq_ignore_ascii_case("TButton"@, name)
            || eq_ignore_ascii_case("TBitBtn"@, name)
            || eq_ignore_ascii_case("TCheckBox"@, name)
            || eq_ignore_ascii_case("TRadioButton"@, name)
            || eq_ignore_ascii_case("TComboBox"@, name)
            || eq_ignore_ascii_case("TListBox"@, name)
            || eq_ignore_ascii_case("TStringGrid"@, name)
            || eq_ignore_ascii_case("TPageControl"@, name)
            || eq_ignore_ascii_case("TTabSheet"@, name)
            || eq_ignore_ascii_case("TImage"@, name)
            || eq_ignore_ascii_case("TScrollBox"@, name)
            || eq_ignore_ascii_case("TSplitter"@, name)
            || eq_ignore_ascii_case("TStatusBar"@, name)
            || eq_ignore_ascii_case("TToolBar"@, name)
            || eq_ignore_ascii_case("TMainMenu"@, name)
            || eq_ignore_ascii_case("TPopupMenu"@, name)
            || eq_ignore_ascii_case("TTimer"@, name)
            || eq_ignore_ascii_case("TDataSource"@, name)
            || eq_ignore_ascii_case("TDBGrid"@, name)
            || eq_ignore_ascii_case("TDBEdit"@, name)
            || eq_ignore_ascii_case("TDBMemo"@, name)
            || eq_ignore_ascii_case("TDBComboBox"@, name)
            || eq_ignore_ascii_case("TDBCheckBox"@, name)
            || eq_ignore_ascii_case("TDBLookupComboBox"@, name)
            || eq_ignore_ascii_case("TComponent"@, name)
            || eq_ignore_ascii_case("TControl"@, name)
            || eq_ignore_ascii_case("TWinControl"@, name)
            || eq_ignore_ascii_case("TCustomControl"@, name)
            || eq_ignore_ascii_case("TOpenDialog"@, name)
            || eq_ignore_ascii_case("TSaveDialog"@, name)
            || eq_ignore_ascii_case("TOpenPictureDialog"@, name)
            || eq_ignore_ascii_case("TColorDialog"@, name)
            || eq_ignore_ascii_case("TFontDialog"@, name)
            || eq_ignore_ascii_case("TPrintDialog"@, name)
            || eq_ignore_ascii_case("TFDConnection"@, name)
            || eq_ignore_ascii_case("TFDQuery"@, name)
            || eq_ignore_ascii_case("TFDTable"@, name)
            || eq_ignore_ascii_case("TFDStoredProc"@, name)
        ),
{
    reveal_with_fuel(base_match_from, 45);
}

} // verus!
