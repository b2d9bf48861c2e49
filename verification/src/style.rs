//! Resolve `style`/`classDef`/`linkStyle` declarations into SVG attributes.
//!
//! A node's effective style is layered: `default` classDef → each named class
//! in order → the node's inline `style` (later layers win per property). Only
//! the CSS properties that map onto SVG primitives are translated; anything
//! else is ignored.

use vstd::prelude::*;
use vstd::hash_map::StringHashMap;
use crate::text::{chars_of, eq_str, extend_chars, string_of, trim, trim_chars};

verus! {

/// A declaration list: `(property, value)` pairs in source order.
pub type Style = Vec<(String, String)>;

pub open spec fn decls_view(v: Seq<(String, String)>) -> Seq<(Seq<char>, Seq<char>)> {
    v.map_values(|p: (String, String)| (p.0@, p.1@))
}

/// First index whose property is `k`.
pub open spec fn key_pos(acc: Seq<(Seq<char>, Seq<char>)>, k: Seq<char>) -> Option<int>
    decreases acc.len(),
{
    if acc.len() == 0 {
        None
    } else if acc[0].0 == k {
        Some(0)
    } else {
        match key_pos(acc.drop_first(), k) {
            Some(j) => Some(j + 1),
            None => None,
        }
    }
}

pub proof fn lemma_key_pos(acc: Seq<(Seq<char>, Seq<char>)>, k: Seq<char>)
    ensures
        key_pos(acc, k) matches Some(j) ==> 0 <= j < acc.len() && acc[j].0 == k,
        key_pos(acc, k) is None ==> forall|j: int| 0 <= j < acc.len() ==> acc[j].0 != k,
    decreases acc.len(),
{
    if acc.len() > 0 && acc[0].0 != k {
        lemma_key_pos(acc.drop_first(), k);
        assert forall|j: int| 0 < j < acc.len() implies acc[j] == acc.drop_first()[j - 1] by {}
    }
}

/// One declaration merged in: it overwrites the value of the first entry
/// with the same property, or is appended.
pub open spec fn merge_one(acc: Seq<(Seq<char>, Seq<char>)>, kv: (Seq<char>, Seq<char>)) -> Seq<
    (Seq<char>, Seq<char>),
> {
    match key_pos(acc, kv.0) {
        Some(j) => acc.update(j, (acc[j].0, kv.1)),
        None => acc.push(kv),
    }
}

/// Every declaration of `add` merged into `acc`, in order.
pub open spec fn merge_spec(acc: Seq<(Seq<char>, Seq<char>)>, add: Seq<(Seq<char>, Seq<char>)>) -> Seq<
    (Seq<char>, Seq<char>),
>
    decreases add.len(),
{
    if add.len() == 0 {
        acc
    } else {
        merge_spec(merge_one(acc, add[0]), add.drop_first())
    }
}

/// Value of the last declaration of property `k`.
pub open spec fn last_value(acc: Seq<(Seq<char>, Seq<char>)>, k: Seq<char>) -> Option<Seq<char>>
    decreases acc.len(),
{
    if acc.len() == 0 {
        None
    } else if acc.last().0 == k {
        Some(acc.last().1)
    } else {
        last_value(acc.drop_last(), k)
    }
}

/// `v` with every trailing `px` removed (`trim_end_matches("px")`).
pub open spec fn strip_px_suffix(v: Seq<char>) -> Seq<char>
    decreases v.len(),
{
    if v.len() >= 2 && v[v.len() - 2] == 'p' && v[v.len() - 1] == 'x' {
        strip_px_suffix(v.take(v.len() - 2))
    } else {
        v
    }
}

pub open spec fn strip_px(o: Option<Seq<char>>) -> Option<Seq<char>> {
    match o {
        Some(v) => Some(trim(strip_px_suffix(v))),
        None => None,
    }
}

/// The translated properties of a resolved style.
pub struct ResolvedV {
    pub fill: Option<Seq<char>>,
    pub stroke: Option<Seq<char>>,
    pub stroke_width: Option<Seq<char>>,
    pub stroke_dasharray: Option<Seq<char>>,
    pub color: Option<Seq<char>>,
    pub font_size: Option<Seq<char>>,
    pub font_weight: Option<Seq<char>>,
    pub font_style: Option<Seq<char>>,
    pub opacity: Option<Seq<char>>,
}

/// Read the supported properties out of a merged declaration list.
pub open spec fn pick_spec(acc: Seq<(Seq<char>, Seq<char>)>) -> ResolvedV {
    ResolvedV {
        fill: last_value(acc, "fill"@),
        stroke: last_value(acc, "stroke"@),
        stroke_width: strip_px(last_value(acc, "stroke-width"@)),
        stroke_dasharray: last_value(acc, "stroke-dasharray"@),
        color: last_value(acc, "color"@),
        font_size: strip_px(last_value(acc, "font-size"@)),
        font_weight: last_value(acc, "font-weight"@),
        font_style: last_value(acc, "font-style"@),
        opacity: last_value(acc, "opacity"@),
    }
}

pub open spec fn default_layer(defs: Map<Seq<char>, Style>) -> Seq<(Seq<char>, Seq<char>)> {
    if defs.contains_key("default"@) {
        merge_spec(seq![], decls_view(defs["default"@]@))
    } else {
        seq![]
    }
}

/// All layers merged in order of precedence.
pub open spec fn layered(
    defs: Map<Seq<char>, Style>,
    classes: Seq<Seq<char>>,
    inline: Seq<(Seq<char>, Seq<char>)>,
) -> Seq<(Seq<char>, Seq<char>)> {
    merge_spec(merge_layers(default_layer(defs), defs, classes), inline)
}

/// Named classes merged, in order, onto `acc`.
pub open spec fn merge_layers(
    acc: Seq<(Seq<char>, Seq<char>)>,
    defs: Map<Seq<char>, Style>,
    classes: Seq<Seq<char>>,
) -> Seq<(Seq<char>, Seq<char>)>
    decreases classes.len(),
{
    if classes.len() == 0 {
        acc
    } else {
        let next = if defs.contains_key(classes[0]) {
            merge_spec(acc, decls_view(defs[classes[0]]@))
        } else {
            acc
        };
        merge_layers(next, defs, classes.drop_first())
    }
}

pub open spec fn strings_view(v: Seq<String>) -> Seq<Seq<char>> {
    v.map_values(|s: String| s@)
}

pub open spec fn opt_view(o: Option<String>) -> Option<Seq<char>> {
    match o {
        Some(v) => Some(v@),
        None => None,
    }
}

/// A style resolved to the SVG presentation properties it sets.
pub struct ResolvedStyle {
    pub fill: Option<String>,
    pub stroke: Option<String>,
    /// `stroke-width`, with any trailing `px` stripped.
    pub stroke_width: Option<String>,
    pub stroke_dasharray: Option<String>,
    /// `color` — used for label text fill.
    pub color: Option<String>,
    /// `font-size`, with any trailing `px` stripped.
    pub font_size: Option<String>,
    pub font_weight: Option<String>,
    pub font_style: Option<String>,
    pub opacity: Option<String>,
}

impl View for ResolvedStyle {
    type V = ResolvedV;

    open spec fn view(&self) -> ResolvedV {
        ResolvedV {
            fill: opt_view(self.fill),
            stroke: opt_view(self.stroke),
            stroke_width: opt_view(self.stroke_width),
            stroke_dasharray: opt_view(self.stroke_dasharray),
            color: opt_view(self.color),
            font_size: opt_view(self.font_size),
            font_weight: opt_view(self.font_weight),
            font_style: opt_view(self.font_style),
            opacity: opt_view(self.opacity),
        }
    }
}

/// `name="value"` preceded by a space.
pub open spec fn attr_text(name: Seq<char>, value: Seq<char>) -> Seq<char> {
    seq![' '] + name + seq!['=', '"'] + value + seq!['"']
}

pub open spec fn opt_attr(name: Seq<char>, value: Option<Seq<char>>) -> Seq<char> {
    match value {
        Some(v) => attr_text(name, v),
        None => seq![],
    }
}

pub open spec fn or_default(o: Option<Seq<char>>, d: Seq<char>) -> Seq<char> {
    match o {
        Some(v) => v,
        None => d,
    }
}

/// The shape attributes: fill, stroke and stroke width (each falling back to
/// the given default), then the dash pattern and opacity when set.
pub open spec fn shape_attrs_spec(r: ResolvedV, fill: Seq<char>, stroke: Seq<char>, sw: Seq<char>) -> Seq<
    char,
> {
    attr_text("fill"@, or_default(r.fill, fill)).drop_first() + attr_text(
        "stroke"@,
        or_default(r.stroke, stroke),
    ) + attr_text("stroke-width"@, or_default(r.stroke_width, sw)) + opt_attr(
        "stroke-dasharray"@,
        r.stroke_dasharray,
    ) + opt_attr("opacity"@, r.opacity)
}

/// Text attributes: font weight then font style, each when set.
pub open spec fn text_attrs_spec(r: ResolvedV) -> Seq<char> {
    opt_attr("font-weight"@, r.font_weight) + opt_attr("font-style"@, r.font_style)
}

fn push_attr(out: &mut Vec<char>, name: &str, value: &[char])
    ensures
        final(out)@ == old(out)@ + attr_text(name@, value@),
{
    out.push(' ');
    let n = chars_of(name);
    extend_chars(out, n.as_slice());
    out.push('=');
    out.push('"');
    extend_chars(out, value);
    out.push('"');
    assert(out@ =~= old(out)@ + attr_text(name@, value@));
}

fn push_opt_attr(out: &mut Vec<char>, name: &str, value: &Option<String>)
    ensures
        final(out)@ == old(out)@ + opt_attr(name@, opt_view(*value)),
{
    match value {
        Some(v) => {
            let c = chars_of(v.as_str());
            push_attr(out, name, c.as_slice());
        },
        None => {
            assert(out@ =~= old(out)@ + opt_attr(name@, opt_view(*value)));
        },
    }
}

fn or_default_chars(o: &Option<String>, d: &str) -> (r: Vec<char>)
    ensures
        r@ == or_default(opt_view(*o), d@),
{
    match o {
        Some(v) => chars_of(v.as_str()),
        None => chars_of(d),
    }
}

impl ResolvedStyle {
    /// Shape presentation attributes, falling back to the supplied theme
    /// defaults where the style is silent.
    pub fn shape_attrs(&self, def_fill: &str, def_stroke: &str, def_sw: &str) -> (r: String)
        ensures
            r@ == shape_attrs_spec(self@, def_fill@, def_stroke@, def_sw@),
    {
        let mut out: Vec<char> = Vec::new();
        let f = or_default_chars(&self.fill, def_fill);
        push_attr(&mut out, "fill", f.as_slice());
        let rest = slice_first(&out);
        let s = or_default_chars(&self.stroke, def_stroke);
        let mut out = rest;
        push_attr(&mut out, "stroke", s.as_slice());
        let w = or_default_chars(&self.stroke_width, def_sw);
        push_attr(&mut out, "stroke-width", w.as_slice());
        push_opt_attr(&mut out, "stroke-dasharray", &self.stroke_dasharray);
        push_opt_attr(&mut out, "opacity", &self.opacity);
        assert(out@ =~= shape_attrs_spec(self@, def_fill@, def_stroke@, def_sw@));
        string_of(out.as_slice())
    }

    /// Label text colour, falling back to the theme foreground.
    pub fn label_fill<'a>(&'a self, def_fg: &'a str) -> (r: &'a str)
        ensures
            r@ == or_default(self@.color, def_fg@),
    {
        match &self.color {
            Some(c) => c.as_str(),
            None => def_fg,
        }
    }

    /// Extra text-presentation attributes (`font-weight`/`font-style`) as a
    /// space-prefixed attribute string (empty when the style is silent).
    pub fn text_attrs(&self) -> (r: String)
        ensures
            r@ == text_attrs_spec(self@),
    {
        let mut out: Vec<char> = Vec::new();
        push_opt_attr(&mut out, "font-weight", &self.font_weight);
        push_opt_attr(&mut out, "font-style", &self.font_style);
        assert(out@ =~= text_attrs_spec(self@));
        string_of(out.as_slice())
    }

    /// Stroke colour for inner separators, falling back to the theme stroke.
    pub fn stroke_or<'a>(&'a self, def: &'a str) -> (r: &'a str)
        ensures
            r@ == or_default(self@.stroke, def@),
    {
        match &self.stroke {
            Some(c) => c.as_str(),
            None => def,
        }
    }
}

fn slice_first(v: &Vec<char>) -> (r: Vec<char>)
    requires
        v.len() > 0,
    ensures
        r@ == v@.drop_first(),
{
    let r = crate::text::slice_chars(v.as_slice(), 1, v.len());
    assert(r@ =~= v@.drop_first());
    r
}

fn copy_string(s: &String) -> (r: String)
    ensures
        r@ == s@,
{
    s.clone()
}

/// Position of the first entry of property `k`.
fn find_key(acc: &Style, k: &String) -> (r: Option<usize>)
    ensures
        r matches Some(j) ==> key_pos(decls_view(acc@), k@) == Some(j as int),
        r is None ==> key_pos(decls_view(acc@), k@) is None,
{
    let ghost d = decls_view(acc@);
    let mut i: usize = 0;
    assert(d.skip(0) =~= d);
    while i < acc.len()
        invariant
            i <= acc.len(),
            d == decls_view(acc@),
            key_pos(d, k@) == match key_pos(d.skip(i as int), k@) {
                Some(j) => Some(j + i),
                None => None::<int>,
            },
        decreases acc.len() - i,
    {
        assert(d.skip(i as int)[0] == d[i as int]);
        if acc[i].0 == *k {
            return Some(i);
        }
        assert(d.skip(i as int).drop_first() =~= d.skip(i + 1));
        i = i + 1;
    }
    None
}

/// Merge the declarations of `add` into `acc` (see [`merge_spec`]).
pub fn merge(acc: &mut Style, add: &Style)
    ensures
        decls_view(final(acc)@) == merge_spec(decls_view(old(acc)@), decls_view(add@)),
{
    let ghost a = decls_view(add@);
    let mut i: usize = 0;
    assert(a.skip(0) =~= a);
    while i < add.len()
        invariant
            i <= add.len(),
            a == decls_view(add@),
            merge_spec(decls_view(old(acc)@), a) == merge_spec(decls_view(acc@), a.skip(i as int)),
        decreases add.len() - i,
    {
        let k = &add[i].0;
        let v = &add[i].1;
        let ghost before = decls_view(acc@);
        proof {
            lemma_key_pos(before, k@);
            assert(a[i as int] == (k@, v@));
        }
        match find_key(acc, k) {
            Some(j) => {
                let key = copy_string(&acc[j].0);
                let val = copy_string(v);
                let ghost kv = key@;
                let ghost vv = val@;
                assert(kv == before[j as int].0);
                assert(key_pos(before, k@) == Some(j as int));
                assert(merge_one(before, a[i as int]) == before.update(
                    j as int,
                    (before[j as int].0, v@),
                ));
                acc.set(j, (key, val));
                assert(forall|m: int|
                    0 <= m < acc@.len() && m != j ==> decls_view(acc@)[m] == before[m]);
                assert(decls_view(acc@)[j as int] == (kv, vv));
                assert(decls_view(acc@) =~= merge_one(before, a[i as int]));
            },
            None => {
                acc.push((copy_string(k), copy_string(v)));
                assert(decls_view(acc@) =~= merge_one(before, a[i as int]));
            },
        }
        assert(a.skip(i as int)[0] == a[i as int]);
        assert(a.skip(i as int).drop_first() =~= a.skip(i + 1));
        i = i + 1;
    }
    assert(a.skip(add.len() as int) =~= Seq::<(Seq<char>, Seq<char>)>::empty());
}

fn string_is(s: &String, w: &str) -> (r: bool)
    ensures
        r == (s@ == w@),
{
    let c = chars_of(s.as_str());
    eq_str(c.as_slice(), w)
}

/// Value of the last declaration of property `key`.
fn get(acc: &Style, key: &str) -> (r: Option<String>)
    ensures
        opt_view(r) == last_value(decls_view(acc@), key@),
{
    let ghost d = decls_view(acc@);
    let mut n = acc.len();
    assert(d.take(n as int) =~= d);
    while n > 0
        invariant
            n <= acc.len(),
            d == decls_view(acc@),
            last_value(d, key@) == last_value(d.take(n as int), key@),
        decreases n,
    {
        assert(d.take(n as int).last() == d[n - 1]);
        assert(d.take(n as int).drop_last() =~= d.take(n - 1));
        if string_is(&acc[n - 1].0, key) {
            return Some(copy_string(&acc[n - 1].1));
        }
        n = n - 1;
    }
    None
}

fn strip_px_exec(o: Option<String>) -> (r: Option<String>)
    ensures
        opt_view(r) == strip_px(opt_view(o)),
{
    match o {
        Some(v) => {
            let c = chars_of(v.as_str());
            let mut n = c.len();
            assert(c@.take(n as int) =~= c@);
            while n >= 2 && c[n - 2] == 'p' && c[n - 1] == 'x'
                invariant
                    n <= c.len(),
                    strip_px_suffix(c@) == strip_px_suffix(c@.take(n as int)),
                decreases n,
            {
                assert(c@.take(n as int).take(n - 2) =~= c@.take(n - 2));
                n = n - 2;
            }
            let body = crate::text::slice_chars(c.as_slice(), 0, n);
            assert(body@ =~= c@.take(n as int));
            let t = trim_chars(body.as_slice());
            Some(string_of(t.as_slice()))
        },
        None => None,
    }
}

/// Read the supported properties out of a merged declaration list.
pub fn pick(acc: &Style) -> (r: ResolvedStyle)
    ensures
        r@ == pick_spec(decls_view(acc@)),
{
    ResolvedStyle {
        fill: get(acc, "fill"),
        stroke: get(acc, "stroke"),
        stroke_width: strip_px_exec(get(acc, "stroke-width")),
        stroke_dasharray: get(acc, "stroke-dasharray"),
        color: get(acc, "color"),
        font_size: strip_px_exec(get(acc, "font-size")),
        font_weight: get(acc, "font-weight"),
        font_style: get(acc, "font-style"),
        opacity: get(acc, "opacity"),
    }
}

/// Resolve a node/state/class style: `default` classDef → named classes →
/// inline.
pub fn resolve_style(class_defs: &StringHashMap<Style>, classes: &[String], inline: &Style) -> (r:
    ResolvedStyle)
    ensures
        r@ == pick_spec(layered(class_defs@, strings_view(classes@), decls_view(inline@))),
{
    let mut acc: Style = Vec::new();
    assert(decls_view(acc@) =~= Seq::<(Seq<char>, Seq<char>)>::empty());
    proof {
        reveal_strlit("default");
    }
    match class_defs.get("default") {
        Some(d) => {
            merge(&mut acc, d);
        },
        None => {},
    }
    assert(decls_view(acc@) == default_layer(class_defs@));
    let ghost cs = strings_view(classes@);
    let mut i: usize = 0;
    assert(cs.skip(0) =~= cs);
    while i < classes.len()
        invariant
            i <= classes.len(),
            cs == strings_view(classes@),
            merge_layers(default_layer(class_defs@), class_defs@, cs) == merge_layers(
                decls_view(acc@),
                class_defs@,
                cs.skip(i as int),
            ),
        decreases classes.len() - i,
    {
        assert(cs.skip(i as int)[0] == classes@[i as int]@);
        assert(cs.skip(i as int).drop_first() =~= cs.skip(i + 1));
        match class_defs.get(classes[i].as_str()) {
            Some(cd) => {
                merge(&mut acc, cd);
            },
            None => {},
        }
        i = i + 1;
    }
    assert(cs.skip(classes.len() as int) =~= Seq::<Seq<char>>::empty());
    merge(&mut acc, inline);
    pick(&acc)
}

/// Resolve an edge style: `linkStyle default` → the per-index `linkStyle`.
pub fn resolve_edge_style(default: &Style, indexed: Option<&Style>) -> (r: ResolvedStyle)
    ensures
        r@ == pick_spec(
            match indexed {
                Some(s) => merge_spec(merge_spec(seq![], decls_view(default@)), decls_view(s@)),
                None => merge_spec(seq![], decls_view(default@)),
            },
        ),
{
    let mut acc: Style = Vec::new();
    assert(decls_view(acc@) =~= Seq::<(Seq<char>, Seq<char>)>::empty());
    merge(&mut acc, default);
    match indexed {
        Some(s) => {
            merge(&mut acc, s);
        },
        None => {},
    }
    pick(&acc)
}


/// No property occurs twice.
pub open spec fn unique_keys(acc: Seq<(Seq<char>, Seq<char>)>) -> bool {
    forall|i: int, j: int| 0 <= i < j < acc.len() ==> #[trigger] acc[i].0 != #[trigger] acc[j].0
}

pub open spec fn first_some(a: Option<Seq<char>>, b: Option<Seq<char>>) -> Option<Seq<char>> {
    match a {
        Some(v) => Some(v),
        None => b,
    }
}

/// What class `c` sets property `k` to, if it is defined and sets it.
pub open spec fn class_value(defs: Map<Seq<char>, Style>, c: Seq<char>, k: Seq<char>) -> Option<
    Seq<char>,
> {
    if defs.contains_key(c) {
        last_value(decls_view(defs[c]@), k)
    } else {
        None
    }
}

/// The value of `k` set by the last of `classes` that sets it.
pub open spec fn class_hit(defs: Map<Seq<char>, Style>, classes: Seq<Seq<char>>, k: Seq<char>) -> Option<
    Seq<char>,
>
    decreases classes.len(),
{
    if classes.len() == 0 {
        None
    } else {
        first_some(class_hit(defs, classes.drop_first(), k), class_value(defs, classes[0], k))
    }
}

/// The value a property resolves to: the inline style's, else the last
/// named class's, else the `default` classDef's.
pub open spec fn resolved_value(
    defs: Map<Seq<char>, Style>,
    classes: Seq<Seq<char>>,
    inline: Seq<(Seq<char>, Seq<char>)>,
    k: Seq<char>,
) -> Option<Seq<char>> {
    first_some(
        last_value(inline, k),
        first_some(class_hit(defs, classes, k), class_value(defs, "default"@, k)),
    )
}

proof fn lemma_last_value_none(acc: Seq<(Seq<char>, Seq<char>)>, k: Seq<char>)
    ensures
        last_value(acc, k) is None <==> forall|j: int| 0 <= j < acc.len() ==> acc[j].0 != k,
        last_value(acc, k) matches Some(v) ==> exists|j: int|
            0 <= j < acc.len() && acc[j] == (k, v) && forall|m: int| j < m < acc.len() ==> acc[m].0 != k,
    decreases acc.len(),
{
    if acc.len() > 0 {
        lemma_last_value_none(acc.drop_last(), k);
        if acc.last().0 == k {
            assert(acc[acc.len() - 1] == (k, acc.last().1));
        } else {
            assert forall|j: int| 0 <= j < acc.len() - 1 implies acc[j] == acc.drop_last()[j] by {}
            if let Some(v) = last_value(acc, k) {
                let j = choose|j: int|
                    0 <= j < acc.drop_last().len() && acc.drop_last()[j] == (k, v) && forall|m: int|
                        j < m < acc.drop_last().len() ==> acc.drop_last()[m].0 != k;
                assert(acc[j] == (k, v));
                assert forall|m: int| j < m < acc.len() implies acc[m].0 != k by {
                    if m < acc.len() - 1 {
                        assert(acc[m] == acc.drop_last()[m]);
                    }
                }
            }
        }
    }
}

/// With unique properties, the (only) entry of property `k` gives its value.
proof fn lemma_last_value_at(acc: Seq<(Seq<char>, Seq<char>)>, k: Seq<char>, j: int)
    requires
        unique_keys(acc),
        0 <= j < acc.len(),
        acc[j].0 == k,
    ensures
        last_value(acc, k) == Some(acc[j].1),
{
    lemma_last_value_none(acc, k);
    if let Some(v) = last_value(acc, k) {
        let i = choose|i: int|
            0 <= i < acc.len() && acc[i] == (k, v) && forall|m: int| i < m < acc.len() ==> acc[m].0 != k;
        if i != j {
            if i < j {
            } else {
                assert(acc[j].0 != acc[i].0);
            }
        }
    }
}

proof fn lemma_merge_one(acc: Seq<(Seq<char>, Seq<char>)>, kv: (Seq<char>, Seq<char>), k: Seq<char>)
    requires
        unique_keys(acc),
    ensures
        unique_keys(merge_one(acc, kv)),
        last_value(merge_one(acc, kv), k) == if k == kv.0 {
            Some(kv.1)
        } else {
            last_value(acc, k)
        },
{
    lemma_key_pos(acc, kv.0);
    let r = merge_one(acc, kv);
    lemma_last_value_none(acc, k);
    lemma_last_value_none(r, k);
    match key_pos(acc, kv.0) {
        Some(j) => {
            assert(unique_keys(r)) by {
                assert forall|a: int, b: int| 0 <= a < b < r.len() implies #[trigger] r[a].0
                    != #[trigger] r[b].0 by {
                    assert(r[a].0 == acc[a].0 && r[b].0 == acc[b].0);
                }
            }
            if k == kv.0 {
                lemma_last_value_at(r, k, j);
            } else {
                assert forall|m: int| 0 <= m < r.len() && m != j implies r[m] == acc[m] by {}
                if let Some(v) = last_value(acc, k) {
                    let i = choose|i: int|
                        0 <= i < acc.len() && acc[i] == (k, v) && forall|m: int|
                            i < m < acc.len() ==> acc[m].0 != k;
                    assert(i != j);
                    assert(r[i] == acc[i]);
                    lemma_last_value_at(r, k, i);
                } else {
                    assert forall|m: int| 0 <= m < r.len() implies r[m].0 != k by {
                        if m != j {
                            assert(r[m] == acc[m]);
                        }
                    }
                }
            }
        },
        None => {
            assert(unique_keys(r)) by {
                assert forall|a: int, b: int| 0 <= a < b < r.len() implies #[trigger] r[a].0
                    != #[trigger] r[b].0 by {
                    if b == acc.len() {
                        assert(r[a] == acc[a]);
                    } else {
                        assert(r[a] == acc[a] && r[b] == acc[b]);
                    }
                }
            }
            assert(r.drop_last() =~= acc);
        },
    }
}

proof fn lemma_last_value_front(add: Seq<(Seq<char>, Seq<char>)>, k: Seq<char>)
    requires
        add.len() > 0,
    ensures
        last_value(add, k) == first_some(
            last_value(add.drop_first(), k),
            if add[0].0 == k {
                Some(add[0].1)
            } else {
                None
            },
        ),
    decreases add.len(),
{
    if add.len() == 1 {
        assert(add.drop_last().len() == 0);
        assert(add.drop_first().len() == 0);
    } else {
        lemma_last_value_front(add.drop_last(), k);
        assert(add.drop_last().drop_first() =~= add.drop_first().drop_last());
        assert(add.drop_first().last() == add.last());
    }
}

/// Merging `add` into a declaration list without repeated properties: a
/// property takes its last value in `add`, or keeps its value otherwise.
pub proof fn lemma_merge_lookup(
    acc: Seq<(Seq<char>, Seq<char>)>,
    add: Seq<(Seq<char>, Seq<char>)>,
    k: Seq<char>,
)
    requires
        unique_keys(acc),
    ensures
        unique_keys(merge_spec(acc, add)),
        last_value(merge_spec(acc, add), k) == first_some(last_value(add, k), last_value(acc, k)),
    decreases add.len(),
{
    if add.len() > 0 {
        lemma_merge_one(acc, add[0], k);
        lemma_merge_lookup(merge_one(acc, add[0]), add.drop_first(), k);
        lemma_last_value_front(add, k);
    }
}

proof fn lemma_merge_layers_lookup(
    acc: Seq<(Seq<char>, Seq<char>)>,
    defs: Map<Seq<char>, Style>,
    classes: Seq<Seq<char>>,
    k: Seq<char>,
)
    requires
        unique_keys(acc),
    ensures
        unique_keys(merge_layers(acc, defs, classes)),
        last_value(merge_layers(acc, defs, classes), k) == first_some(
            class_hit(defs, classes, k),
            last_value(acc, k),
        ),
    decreases classes.len(),
{
    if classes.len() > 0 {
        let next = if defs.contains_key(classes[0]) {
            merge_spec(acc, decls_view(defs[classes[0]]@))
        } else {
            acc
        };
        if defs.contains_key(classes[0]) {
            lemma_merge_lookup(acc, decls_view(defs[classes[0]]@), k);
        }
        lemma_merge_layers_lookup(next, defs, classes.drop_first(), k);
    }
}

/// Style precedence: in a resolved node style, every property takes the
/// inline style's value if it sets one, else the value of the last named
/// class that sets it, else the `default` classDef's.
pub proof fn law_style_precedence(
    defs: Map<Seq<char>, Style>,
    classes: Seq<Seq<char>>,
    inline: Seq<(Seq<char>, Seq<char>)>,
    k: Seq<char>,
)
    ensures
        last_value(layered(defs, classes, inline), k) == resolved_value(defs, classes, inline, k),
{
    let empty = Seq::<(Seq<char>, Seq<char>)>::empty();
    assert(last_value(empty, k) is None);
    if defs.contains_key("default"@) {
        lemma_merge_lookup(empty, decls_view(defs["default"@]@), k);
    }
    lemma_merge_layers_lookup(default_layer(defs), defs, classes, k);
    lemma_merge_lookup(merge_layers(default_layer(defs), defs, classes), inline, k);
}

/// Edge style precedence: the indexed `linkStyle` overrides `linkStyle
/// default` property by property.
pub proof fn law_edge_precedence(
    default: Seq<(Seq<char>, Seq<char>)>,
    indexed: Seq<(Seq<char>, Seq<char>)>,
    k: Seq<char>,
)
    ensures
        last_value(merge_spec(merge_spec(seq![], default), indexed), k) == first_some(
            last_value(indexed, k),
            last_value(default, k),
        ),
{
    let empty = Seq::<(Seq<char>, Seq<char>)>::empty();
    lemma_merge_lookup(empty, default, k);
    lemma_merge_lookup(merge_spec(empty, default), indexed, k);
}

/// The value a shape attribute takes: the style's own when it sets one,
/// the supplied default only when it does not.
pub proof fn law_shape_attrs_prefer_style(
    r: ResolvedV,
    fill: Seq<char>,
    stroke: Seq<char>,
    sw: Seq<char>,
    fill2: Seq<char>,
    stroke2: Seq<char>,
    sw2: Seq<char>,
)
    ensures
        ({
            let f = match r.fill {
                Some(v) => v,
                None => fill,
            };
            let st = match r.stroke {
                Some(v) => v,
                None => stroke,
            };
            let w = match r.stroke_width {
                Some(v) => v,
                None => sw,
            };
            let head = "fill=\""@ + f + "\" stroke=\""@ + st + "\" stroke-width=\""@ + w + "\""@;
            shape_attrs_spec(r, fill, stroke, sw).take(head.len() as int) == head
        }),
        r.fill is Some && r.stroke is Some && r.stroke_width is Some ==> shape_attrs_spec(
            r,
            fill,
            stroke,
            sw,
        ) == shape_attrs_spec(r, fill2, stroke2, sw2),
{
    reveal_strlit("fill=\"");
    reveal_strlit("\" stroke=\"");
    reveal_strlit("\" stroke-width=\"");
    reveal_strlit("\"");
    reveal_strlit("fill");
    reveal_strlit("stroke");
    reveal_strlit("stroke-width");
    let f = match r.fill {
        Some(v) => v,
        None => fill,
    };
    let st = match r.stroke {
        Some(v) => v,
        None => stroke,
    };
    let w = match r.stroke_width {
        Some(v) => v,
        None => sw,
    };
    let head = "fill=\""@ + f + "\" stroke=\""@ + st + "\" stroke-width=\""@ + w + "\""@;
    let a = attr_text("fill"@, or_default(r.fill, fill)).drop_first() + attr_text(
        "stroke"@,
        or_default(r.stroke, stroke),
    ) + attr_text("stroke-width"@, or_default(r.stroke_width, sw));
    assert(a =~= head);
    let full = shape_attrs_spec(r, fill, stroke, sw);
    assert(full == a + opt_attr("stroke-dasharray"@, r.stroke_dasharray) + opt_attr(
        "opacity"@,
        r.opacity,
    ));
    assert(full.take(head.len() as int) =~= head);
}

/// After the fill, stroke and stroke width, a shape carries its dash
/// pattern and then its opacity, each only when the style sets it; text
/// carries the font weight and then the font style, each only when set; a
/// label color or separator stroke is the style's own when set, else the
/// given default.
pub proof fn law_optional_attrs(r: ResolvedV, fill: Seq<char>, stroke: Seq<char>, sw: Seq<char>, d: Seq<char>)
    ensures
        ({
            let dash = match r.stroke_dasharray {
                Some(v) => " stroke-dasharray=\""@ + v + "\""@,
                None => Seq::<char>::empty(),
            };
            let op = match r.opacity {
                Some(v) => " opacity=\""@ + v + "\""@,
                None => Seq::<char>::empty(),
            };
            let full = shape_attrs_spec(r, fill, stroke, sw);
            full.skip(full.len() - (dash.len() + op.len())) == dash + op
        }),
        text_attrs_spec(r) == (match r.font_weight {
            Some(v) => " font-weight=\""@ + v + "\""@,
            None => Seq::<char>::empty(),
        }) + (match r.font_style {
            Some(v) => " font-style=\""@ + v + "\""@,
            None => Seq::<char>::empty(),
        }),
        r.color matches Some(c) ==> or_default(r.color, d) == c,
        r.color is None ==> or_default(r.color, d) == d,
        r.stroke matches Some(c) ==> or_default(r.stroke, d) == c,
        r.stroke is None ==> or_default(r.stroke, d) == d,
{
    reveal_strlit(" stroke-dasharray=\"");
    reveal_strlit(" opacity=\"");
    reveal_strlit(" font-weight=\"");
    reveal_strlit(" font-style=\"");
    reveal_strlit("\"");
    reveal_strlit("stroke-dasharray");
    reveal_strlit("opacity");
    reveal_strlit("font-weight");
    reveal_strlit("font-style");
    let dash = match r.stroke_dasharray {
        Some(v) => " stroke-dasharray=\""@ + v + "\""@,
        None => Seq::<char>::empty(),
    };
    let op = match r.opacity {
        Some(v) => " opacity=\""@ + v + "\""@,
        None => Seq::<char>::empty(),
    };
    assert(opt_attr("stroke-dasharray"@, r.stroke_dasharray) =~= dash);
    assert(opt_attr("opacity"@, r.opacity) =~= op);
    let a = attr_text("fill"@, or_default(r.fill, fill)).drop_first() + attr_text(
        "stroke"@,
        or_default(r.stroke, stroke),
    ) + attr_text("stroke-width"@, or_default(r.stroke_width, sw));
    let full = shape_attrs_spec(r, fill, stroke, sw);
    assert(full =~= a + (dash + op));
    assert(full.skip(full.len() - (dash.len() + op.len())) =~= dash + op);
    assert(opt_attr("font-weight"@, r.font_weight) =~= match r.font_weight {
        Some(v) => " font-weight=\""@ + v + "\""@,
        None => Seq::<char>::empty(),
    });
    assert(opt_attr("font-style"@, r.font_style) =~= match r.font_style {
        Some(v) => " font-style=\""@ + v + "\""@,
        None => Seq::<char>::empty(),
    });
}

} // verus!
