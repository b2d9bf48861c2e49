//! Visual themes: the colors every renderer reads. Built-in: `default`,
//! `base`, `dark`, `forest`, `neutral`. Source-level `themeVariables`
//! recolor a theme ([`Theme::apply_theme_variables`]). The base font size,
//! a floating-point value, is kept by the caller next to the theme.

use vstd::prelude::*;
use vstd::hash_map::StringHashMap;
use crate::text::{chars_of, decimal, push_decimal, string_of};

verus! {

/// Own a theme string.
fn own(x: &str) -> (r: String)
    ensures
        r@ == x@,
{
    x.to_owned()
}

pub open spec fn opt_view(o: Option<String>) -> Option<Seq<char>> {
    match o {
        Some(v) => Some(v@),
        None => None,
    }
}

pub open spec fn strings_view(v: Seq<String>) -> Seq<Seq<char>> {
    v.map_values(|s: String| s@)
}

/// A theme: text, shape, edge and palette colors, the root font family and
/// whether the SVG is emitted responsive.
#[derive(Clone, Debug)]
pub struct Theme {
    pub fg: String,
    pub fg_muted: String,
    pub bg: String,
    pub actor_fill: String,
    pub actor_stroke: String,
    /// Sequence actor name text color (`actorTextColor`); `None` falls back to `fg`.
    pub actor_text_color: Option<String>,
    pub lifeline: String,
    pub arrow_stroke: String,
    /// Sequence message text color (`signalTextColor`); `None` falls back to `fg`.
    pub signal_text_color: Option<String>,
    pub note_fill: String,
    pub note_stroke: String,
    pub activation_fill: String,
    pub activation_stroke: String,
    pub frame_label_fill: String,
    /// Diagram title color (`titleColor`); `None` falls back to `fg`.
    pub title_color: Option<String>,
    pub flow_node_fill: String,
    pub flow_node_stroke: String,
    pub flow_edge_stroke: String,
    pub flow_label_bg: String,
    pub flow_cluster_fill: String,
    pub flow_cluster_stroke: String,
    /// Categorical palette shared by every color-cycling diagram.
    pub pie_palette: Vec<String>,
    /// Pie slice/legend stroke (`pieStrokeColor`); `None` falls back to `#fff`.
    pub pie_stroke: Option<String>,
    /// Pie slice fill-opacity (`pieOpacity`); `None` emits no opacity.
    pub pie_opacity: Option<String>,
    /// gitGraph commit label color; `None` falls back to `fg_muted`.
    pub commit_label_color: Option<String>,
    /// gitGraph tag label color; `None` falls back to `fg`.
    pub tag_label_color: Option<String>,
    /// `quadrant{1..4}Fill` overrides; `None` falls back to the palette.
    pub quadrant_fills: [Option<String>; 4],
    /// CSS `font-family` of the root `<svg>`.
    pub font_family: String,
    /// Emit the responsive `width="100%"` envelope.
    pub responsive: bool,
}

/// The colors of a theme as values.
pub struct ThemeV {
    pub fg: Seq<char>,
    pub fg_muted: Seq<char>,
    pub bg: Seq<char>,
    pub actor_fill: Seq<char>,
    pub actor_stroke: Seq<char>,
    pub actor_text_color: Option<Seq<char>>,
    pub lifeline: Seq<char>,
    pub arrow_stroke: Seq<char>,
    pub signal_text_color: Option<Seq<char>>,
    pub note_fill: Seq<char>,
    pub note_stroke: Seq<char>,
    pub activation_fill: Seq<char>,
    pub activation_stroke: Seq<char>,
    pub frame_label_fill: Seq<char>,
    pub title_color: Option<Seq<char>>,
    pub flow_node_fill: Seq<char>,
    pub flow_node_stroke: Seq<char>,
    pub flow_edge_stroke: Seq<char>,
    pub flow_label_bg: Seq<char>,
    pub flow_cluster_fill: Seq<char>,
    pub flow_cluster_stroke: Seq<char>,
    pub pie_palette: Seq<Seq<char>>,
    pub pie_stroke: Option<Seq<char>>,
    pub pie_opacity: Option<Seq<char>>,
    pub commit_label_color: Option<Seq<char>>,
    pub tag_label_color: Option<Seq<char>>,
    pub quadrant_fills: Seq<Option<Seq<char>>>,
    pub font_family: Seq<char>,
    pub responsive: bool,
}

impl View for Theme {
    type V = ThemeV;

    open spec fn view(&self) -> ThemeV {
        ThemeV {
            fg: self.fg@,
            fg_muted: self.fg_muted@,
            bg: self.bg@,
            actor_fill: self.actor_fill@,
            actor_stroke: self.actor_stroke@,
            actor_text_color: opt_view(self.actor_text_color),
            lifeline: self.lifeline@,
            arrow_stroke: self.arrow_stroke@,
            signal_text_color: opt_view(self.signal_text_color),
            note_fill: self.note_fill@,
            note_stroke: self.note_stroke@,
            activation_fill: self.activation_fill@,
            activation_stroke: self.activation_stroke@,
            frame_label_fill: self.frame_label_fill@,
            title_color: opt_view(self.title_color),
            flow_node_fill: self.flow_node_fill@,
            flow_node_stroke: self.flow_node_stroke@,
            flow_edge_stroke: self.flow_edge_stroke@,
            flow_label_bg: self.flow_label_bg@,
            flow_cluster_fill: self.flow_cluster_fill@,
            flow_cluster_stroke: self.flow_cluster_stroke@,
            pie_palette: strings_view(self.pie_palette@),
            pie_stroke: opt_view(self.pie_stroke),
            pie_opacity: opt_view(self.pie_opacity),
            commit_label_color: opt_view(self.commit_label_color),
            tag_label_color: opt_view(self.tag_label_color),
            quadrant_fills: self.quadrant_fills@.map_values(|o: Option<String>| opt_view(o)),
            font_family: self.font_family@,
            responsive: self.responsive,
        }
    }
}

pub open spec fn palette_default() -> Seq<Seq<char>> {
    seq!["#5470C6"@, "#91CC75"@, "#FAC858"@, "#EE6666"@, "#73C0DE"@, "#3BA272"@, "#FC8452"@, "#9A60B4"@, "#EA7CCC"@, "#7BCBA5"@]
}

fn palette_default_vec() -> (r: Vec<String>)
    ensures
        strings_view(r@) == palette_default(),
{
    let mut v: Vec<String> = Vec::new();
    v.push(own("#5470C6"));
    v.push(own("#91CC75"));
    v.push(own("#FAC858"));
    v.push(own("#EE6666"));
    v.push(own("#73C0DE"));
    v.push(own("#3BA272"));
    v.push(own("#FC8452"));
    v.push(own("#9A60B4"));
    v.push(own("#EA7CCC"));
    v.push(own("#7BCBA5"));
    assert(strings_view(v@) =~= palette_default());
    v
}

pub open spec fn palette_dark() -> Seq<Seq<char>> {
    seq!["#7CB5FF"@, "#A6D88A"@, "#FFD980"@, "#FF8888"@, "#8FD8F2"@, "#5BC09A"@, "#FF9B6E"@, "#B58CE0"@, "#FF9CDA"@, "#8FE0BA"@]
}

fn palette_dark_vec() -> (r: Vec<String>)
    ensures
        strings_view(r@) == palette_dark(),
{
    let mut v: Vec<String> = Vec::new();
    v.push(own("#7CB5FF"));
    v.push(own("#A6D88A"));
    v.push(own("#FFD980"));
    v.push(own("#FF8888"));
    v.push(own("#8FD8F2"));
    v.push(own("#5BC09A"));
    v.push(own("#FF9B6E"));
    v.push(own("#B58CE0"));
    v.push(own("#FF9CDA"));
    v.push(own("#8FE0BA"));
    assert(strings_view(v@) =~= palette_dark());
    v
}

pub open spec fn palette_forest() -> Seq<Seq<char>> {
    seq!["#4E8A4E"@, "#7BAA5A"@, "#A8C870"@, "#D7E0A0"@, "#A8C8A8"@, "#3A6B3A"@, "#6BA66B"@, "#C0D8A0"@, "#7AA070"@, "#5C8C5C"@]
}

fn palette_forest_vec() -> (r: Vec<String>)
    ensures
        strings_view(r@) == palette_forest(),
{
    let mut v: Vec<String> = Vec::new();
    v.push(own("#4E8A4E"));
    v.push(own("#7BAA5A"));
    v.push(own("#A8C870"));
    v.push(own("#D7E0A0"));
    v.push(own("#A8C8A8"));
    v.push(own("#3A6B3A"));
    v.push(own("#6BA66B"));
    v.push(own("#C0D8A0"));
    v.push(own("#7AA070"));
    v.push(own("#5C8C5C"));
    assert(strings_view(v@) =~= palette_forest());
    v
}

pub open spec fn palette_neutral() -> Seq<Seq<char>> {
    seq!["#444"@, "#666"@, "#888"@, "#AAA"@, "#555"@, "#777"@, "#999"@, "#BBB"@, "#5E5E5E"@, "#7E7E7E"@]
}

fn palette_neutral_vec() -> (r: Vec<String>)
    ensures
        strings_view(r@) == palette_neutral(),
{
    let mut v: Vec<String> = Vec::new();
    v.push(own("#444"));
    v.push(own("#666"));
    v.push(own("#888"));
    v.push(own("#AAA"));
    v.push(own("#555"));
    v.push(own("#777"));
    v.push(own("#999"));
    v.push(own("#BBB"));
    v.push(own("#5E5E5E"));
    v.push(own("#7E7E7E"));
    assert(strings_view(v@) =~= palette_neutral());
    v
}

/// The `default_theme` built-in.
pub open spec fn default_theme_spec() -> ThemeV {
    ThemeV {
        fg: "#333"@,
        fg_muted: "#666"@,
        bg: "#fff"@,
        actor_fill: "#ECECFF"@,
        actor_stroke: "#9370DB"@,
        actor_text_color: None,
        lifeline: "#999"@,
        arrow_stroke: "#333"@,
        signal_text_color: None,
        note_fill: "#FFF5AD"@,
        note_stroke: "#aaaa33"@,
        activation_fill: "#ECECFF"@,
        activation_stroke: "#9370DB"@,
        frame_label_fill: "#EEE"@,
        title_color: None,
        flow_node_fill: "#ECECFF"@,
        flow_node_stroke: "#9370DB"@,
        flow_edge_stroke: "#333"@,
        flow_label_bg: "#fff"@,
        flow_cluster_fill: "#ffffde"@,
        flow_cluster_stroke: "#aaaa33"@,
        pie_palette: palette_default(),
        pie_stroke: None,
        pie_opacity: None,
        commit_label_color: None,
        tag_label_color: None,
        quadrant_fills: seq![None, None, None, None],
        font_family: "sans-serif"@,
        responsive: true,
    }
}

/// The `dark` built-in.
pub open spec fn dark_spec() -> ThemeV {
    ThemeV {
        fg: "#E0E0E0"@,
        fg_muted: "#A0A0A0"@,
        bg: "#1E1E1E"@,
        actor_fill: "#3B3B5B"@,
        actor_stroke: "#B58CE0"@,
        actor_text_color: None,
        lifeline: "#666"@,
        arrow_stroke: "#E0E0E0"@,
        signal_text_color: None,
        note_fill: "#3B3B22"@,
        note_stroke: "#AAAA55"@,
        activation_fill: "#3B3B5B"@,
        activation_stroke: "#B58CE0"@,
        frame_label_fill: "#2A2A3C"@,
        title_color: None,
        flow_node_fill: "#3B3B5B"@,
        flow_node_stroke: "#B58CE0"@,
        flow_edge_stroke: "#E0E0E0"@,
        flow_label_bg: "#1E1E1E"@,
        flow_cluster_fill: "#2A2A3C"@,
        flow_cluster_stroke: "#9A9ABF"@,
        pie_palette: palette_dark(),
        pie_stroke: None,
        pie_opacity: None,
        commit_label_color: None,
        tag_label_color: None,
        quadrant_fills: seq![None, None, None, None],
        font_family: "sans-serif"@,
        responsive: true,
    }
}

/// The `forest` built-in.
pub open spec fn forest_spec() -> ThemeV {
    ThemeV {
        fg: "#1E3A1E"@,
        fg_muted: "#5A7A5A"@,
        bg: "#F0F8F0"@,
        actor_fill: "#CDE7CD"@,
        actor_stroke: "#4E8A4E"@,
        actor_text_color: None,
        lifeline: "#7BAA7B"@,
        arrow_stroke: "#1E3A1E"@,
        signal_text_color: None,
        note_fill: "#E8F0C8"@,
        note_stroke: "#4E8A4E"@,
        activation_fill: "#CDE7CD"@,
        activation_stroke: "#4E8A4E"@,
        frame_label_fill: "#E4F0E4"@,
        title_color: None,
        flow_node_fill: "#CDE7CD"@,
        flow_node_stroke: "#4E8A4E"@,
        flow_edge_stroke: "#1E3A1E"@,
        flow_label_bg: "#F0F8F0"@,
        flow_cluster_fill: "#E4F0E4"@,
        flow_cluster_stroke: "#4E8A4E"@,
        pie_palette: palette_forest(),
        pie_stroke: None,
        pie_opacity: None,
        commit_label_color: None,
        tag_label_color: None,
        quadrant_fills: seq![None, None, None, None],
        font_family: "sans-serif"@,
        responsive: true,
    }
}

/// The `neutral` built-in.
pub open spec fn neutral_spec() -> ThemeV {
    ThemeV {
        fg: "#222"@,
        fg_muted: "#777"@,
        bg: "#fff"@,
        actor_fill: "#EEE"@,
        actor_stroke: "#777"@,
        actor_text_color: None,
        lifeline: "#BBB"@,
        arrow_stroke: "#222"@,
        signal_text_color: None,
        note_fill: "#F0F0D8"@,
        note_stroke: "#AAAAAA"@,
        activation_fill: "#EEE"@,
        activation_stroke: "#777"@,
        frame_label_fill: "#F4F4F4"@,
        title_color: None,
        flow_node_fill: "#EEE"@,
        flow_node_stroke: "#777"@,
        flow_edge_stroke: "#222"@,
        flow_label_bg: "#fff"@,
        flow_cluster_fill: "#F4F4F4"@,
        flow_cluster_stroke: "#AAAAAA"@,
        pie_palette: palette_neutral(),
        pie_stroke: None,
        pie_opacity: None,
        commit_label_color: None,
        tag_label_color: None,
        quadrant_fills: seq![None, None, None, None],
        font_family: "sans-serif"@,
        responsive: true,
    }
}

/// The `base` built-in.
pub open spec fn base_spec() -> ThemeV {
    ThemeV {
        fg: "#333"@,
        fg_muted: "#666"@,
        bg: "#fff"@,
        actor_fill: "#fff4dd"@,
        actor_stroke: "#cba15b"@,
        actor_text_color: None,
        lifeline: "#999"@,
        arrow_stroke: "#333"@,
        signal_text_color: None,
        note_fill: "#FFF5AD"@,
        note_stroke: "#aaaa33"@,
        activation_fill: "#fff4dd"@,
        activation_stroke: "#cba15b"@,
        frame_label_fill: "#EEE"@,
        title_color: None,
        flow_node_fill: "#fff4dd"@,
        flow_node_stroke: "#cba15b"@,
        flow_edge_stroke: "#333"@,
        flow_label_bg: "#fff"@,
        flow_cluster_fill: "#ffffde"@,
        flow_cluster_stroke: "#aaaa33"@,
        pie_palette: palette_default(),
        pie_stroke: None,
        pie_opacity: None,
        commit_label_color: None,
        tag_label_color: None,
        quadrant_fills: seq![None, None, None, None],
        font_family: "sans-serif"@,
        responsive: true,
    }
}

impl Theme {
    /// The default theme.
    pub fn default_theme() -> (r: Theme)
        ensures
            r@ == default_theme_spec(),
    {
        let t = Theme {
            fg: own("#333"),
            fg_muted: own("#666"),
            bg: own("#fff"),
            actor_fill: own("#ECECFF"),
            actor_stroke: own("#9370DB"),
            actor_text_color: None,
            lifeline: own("#999"),
            arrow_stroke: own("#333"),
            signal_text_color: None,
            note_fill: own("#FFF5AD"),
            note_stroke: own("#aaaa33"),
            activation_fill: own("#ECECFF"),
            activation_stroke: own("#9370DB"),
            frame_label_fill: own("#EEE"),
            title_color: None,
            flow_node_fill: own("#ECECFF"),
            flow_node_stroke: own("#9370DB"),
            flow_edge_stroke: own("#333"),
            flow_label_bg: own("#fff"),
            flow_cluster_fill: own("#ffffde"),
            flow_cluster_stroke: own("#aaaa33"),
            pie_palette: palette_default_vec(),
            pie_stroke: None,
            pie_opacity: None,
            commit_label_color: None,
            tag_label_color: None,
            quadrant_fills: [None, None, None, None],
            font_family: own("sans-serif"),
            responsive: true,
        };
        assert(t@.quadrant_fills =~= seq![None::<Seq<char>>, None, None, None]);
        t
    }

    /// `base`: the customization palette, a warm cream primary.
    pub fn base() -> (r: Theme)
        ensures
            r@ == base_spec(),
    {
        let t = Theme {
            fg: own("#333"),
            fg_muted: own("#666"),
            bg: own("#fff"),
            actor_fill: own("#fff4dd"),
            actor_stroke: own("#cba15b"),
            actor_text_color: None,
            lifeline: own("#999"),
            arrow_stroke: own("#333"),
            signal_text_color: None,
            note_fill: own("#FFF5AD"),
            note_stroke: own("#aaaa33"),
            activation_fill: own("#fff4dd"),
            activation_stroke: own("#cba15b"),
            frame_label_fill: own("#EEE"),
            title_color: None,
            flow_node_fill: own("#fff4dd"),
            flow_node_stroke: own("#cba15b"),
            flow_edge_stroke: own("#333"),
            flow_label_bg: own("#fff"),
            flow_cluster_fill: own("#ffffde"),
            flow_cluster_stroke: own("#aaaa33"),
            pie_palette: palette_default_vec(),
            pie_stroke: None,
            pie_opacity: None,
            commit_label_color: None,
            tag_label_color: None,
            quadrant_fills: [None, None, None, None],
            font_family: own("sans-serif"),
            responsive: true,
        };
        assert(t@.quadrant_fills =~= seq![None::<Seq<char>>, None, None, None]);
        t
    }

    /// The dark theme.
    pub fn dark() -> (r: Theme)
        ensures
            r@ == dark_spec(),
    {
        let t = Theme {
            fg: own("#E0E0E0"),
            fg_muted: own("#A0A0A0"),
            bg: own("#1E1E1E"),
            actor_fill: own("#3B3B5B"),
            actor_stroke: own("#B58CE0"),
            actor_text_color: None,
            lifeline: own("#666"),
            arrow_stroke: own("#E0E0E0"),
            signal_text_color: None,
            note_fill: own("#3B3B22"),
            note_stroke: own("#AAAA55"),
            activation_fill: own("#3B3B5B"),
            activation_stroke: own("#B58CE0"),
            frame_label_fill: own("#2A2A3C"),
            title_color: None,
            flow_node_fill: own("#3B3B5B"),
            flow_node_stroke: own("#B58CE0"),
            flow_edge_stroke: own("#E0E0E0"),
            flow_label_bg: own("#1E1E1E"),
            flow_cluster_fill: own("#2A2A3C"),
            flow_cluster_stroke: own("#9A9ABF"),
            pie_palette: palette_dark_vec(),
            pie_stroke: None,
            pie_opacity: None,
            commit_label_color: None,
            tag_label_color: None,
            quadrant_fills: [None, None, None, None],
            font_family: own("sans-serif"),
            responsive: true,
        };
        assert(t@.quadrant_fills =~= seq![None::<Seq<char>>, None, None, None]);
        t
    }

    /// The forest theme.
    pub fn forest() -> (r: Theme)
        ensures
            r@ == forest_spec(),
    {
        let t = Theme {
            fg: own("#1E3A1E"),
            fg_muted: own("#5A7A5A"),
            bg: own("#F0F8F0"),
            actor_fill: own("#CDE7CD"),
            actor_stroke: own("#4E8A4E"),
            actor_text_color: None,
            lifeline: own("#7BAA7B"),
            arrow_stroke: own("#1E3A1E"),
            signal_text_color: None,
            note_fill: own("#E8F0C8"),
            note_stroke: own("#4E8A4E"),
            activation_fill: own("#CDE7CD"),
            activation_stroke: own("#4E8A4E"),
            frame_label_fill: own("#E4F0E4"),
            title_color: None,
            flow_node_fill: own("#CDE7CD"),
            flow_node_stroke: own("#4E8A4E"),
            flow_edge_stroke: own("#1E3A1E"),
            flow_label_bg: own("#F0F8F0"),
            flow_cluster_fill: own("#E4F0E4"),
            flow_cluster_stroke: own("#4E8A4E"),
            pie_palette: palette_forest_vec(),
            pie_stroke: None,
            pie_opacity: None,
            commit_label_color: None,
            tag_label_color: None,
            quadrant_fills: [None, None, None, None],
            font_family: own("sans-serif"),
            responsive: true,
        };
        assert(t@.quadrant_fills =~= seq![None::<Seq<char>>, None, None, None]);
        t
    }

    /// The neutral theme.
    pub fn neutral() -> (r: Theme)
        ensures
            r@ == neutral_spec(),
    {
        let t = Theme {
            fg: own("#222"),
            fg_muted: own("#777"),
            bg: own("#fff"),
            actor_fill: own("#EEE"),
            actor_stroke: own("#777"),
            actor_text_color: None,
            lifeline: own("#BBB"),
            arrow_stroke: own("#222"),
            signal_text_color: None,
            note_fill: own("#F0F0D8"),
            note_stroke: own("#AAAAAA"),
            activation_fill: own("#EEE"),
            activation_stroke: own("#777"),
            frame_label_fill: own("#F4F4F4"),
            title_color: None,
            flow_node_fill: own("#EEE"),
            flow_node_stroke: own("#777"),
            flow_edge_stroke: own("#222"),
            flow_label_bg: own("#fff"),
            flow_cluster_fill: own("#F4F4F4"),
            flow_cluster_stroke: own("#AAAAAA"),
            pie_palette: palette_neutral_vec(),
            pie_stroke: None,
            pie_opacity: None,
            commit_label_color: None,
            tag_label_color: None,
            quadrant_fills: [None, None, None, None],
            font_family: own("sans-serif"),
            responsive: true,
        };
        assert(t@.quadrant_fills =~= seq![None::<Seq<char>>, None, None, None]);
        t
    }

}


/// The built-in theme named `name`, if any.
pub open spec fn by_name_spec(name: Seq<char>) -> Option<ThemeV> {
    if name == "default"@ {
        Some(default_theme_spec())
    } else if name == "base"@ {
        Some(base_spec())
    } else if name == "dark"@ {
        Some(dark_spec())
    } else if name == "forest"@ {
        Some(forest_spec())
    } else if name == "neutral"@ {
        Some(neutral_spec())
    } else {
        None
    }
}

pub open spec fn or_else(o: Option<Seq<char>>, d: Seq<char>) -> Seq<char> {
    match o {
        Some(v) => v,
        None => d,
    }
}

pub open spec fn first_some(a: Option<Seq<char>>, b: Option<Seq<char>>) -> Option<Seq<char>> {
    match a {
        Some(v) => Some(v),
        None => b,
    }
}

/// The value of theme variable `k`.
pub open spec fn var(vars: Map<Seq<char>, String>, k: Seq<char>) -> Option<Seq<char>> {
    if vars.contains_key(k) {
        Some(vars[k]@)
    } else {
        None
    }
}

/// Palette `pal` grown to hold index `i`, each new slot copying the slot of
/// `base` it wraps around to.
pub open spec fn grow_palette(pal: Seq<Seq<char>>, base: Seq<Seq<char>>, i: int) -> Seq<Seq<char>>
    decreases i + 1 - pal.len(),
{
    if pal.len() > i || base.len() == 0 {
        pal
    } else {
        grow_palette(pal.push(base[(pal.len() % base.len()) as int]), base, i)
    }
}

/// Palette slot `i` set to `c`, growing the palette first.
pub open spec fn set_slot(pal: Seq<Seq<char>>, i: int, c: Seq<char>) -> Seq<Seq<char>> {
    grow_palette(pal, pal, i).update(i, c)
}

/// `prefix{n}` for `n` in `n..end` applied in turn to slot `n - shift`.
pub open spec fn apply_slots(
    pal: Seq<Seq<char>>,
    vars: Map<Seq<char>, String>,
    prefix: Seq<char>,
    n: int,
    end: int,
    shift: int,
) -> Seq<Seq<char>>
    decreases end - n,
{
    if n >= end || n < 0 {
        pal
    } else {
        let p2 = match var(vars, prefix + decimal(n as nat)) {
            Some(v) => set_slot(pal, n - shift, v),
            None => pal,
        };
        apply_slots(p2, vars, prefix, n + 1, end, shift)
    }
}

/// No variable `prefix{m}` for `m` in `start..end` is set.
pub open spec fn slot_keys_absent(vars: Map<Seq<char>, String>, prefix: Seq<char>, start: int, end: int) -> bool {
    forall|m: nat| start <= m < end ==> !#[trigger] vars.contains_key(prefix + decimal(m))
}

/// Does some variable set a palette slot (`pie1`..`pie12`, `git0`..`git7`
/// or `cScale0`..`cScale11`)? Only those grow the palette, which needs a
/// color to repeat.
pub open spec fn sets_palette(vars: Map<Seq<char>, String>) -> bool {
    !(slot_keys_absent(vars, "pie"@, 1, 13) && slot_keys_absent(vars, "git"@, 0, 8)
        && slot_keys_absent(vars, "cScale"@, 0, 12))
}

/// The sequence-diagram variables.
pub open spec fn sequence_vars(t: ThemeV, vars: Map<Seq<char>, String>) -> ThemeV {
    ThemeV {
        actor_fill: or_else(var(vars, "actorBkg"@), t.actor_fill),
        actor_stroke: or_else(var(vars, "actorBorder"@), t.actor_stroke),
        actor_text_color: first_some(var(vars, "actorTextColor"@), t.actor_text_color),
        lifeline: or_else(var(vars, "actorLineColor"@), t.lifeline),
        arrow_stroke: or_else(var(vars, "signalColor"@), t.arrow_stroke),
        signal_text_color: first_some(var(vars, "signalTextColor"@), t.signal_text_color),
        frame_label_fill: or_else(var(vars, "labelBoxBkgColor"@), t.frame_label_fill),
        activation_fill: or_else(var(vars, "activationBkgColor"@), t.activation_fill),
        activation_stroke: or_else(var(vars, "activationBorderColor"@), t.activation_stroke),
        ..t
    }
}

/// The pie-chart variables: title, slice stroke and opacity, `pie1`..`pie12`.
pub open spec fn pie_vars(t: ThemeV, vars: Map<Seq<char>, String>) -> ThemeV {
    ThemeV {
        title_color: first_some(var(vars, "pieTitleTextColor"@), t.title_color),
        pie_stroke: first_some(var(vars, "pieStrokeColor"@), t.pie_stroke),
        pie_opacity: first_some(var(vars, "pieOpacity"@), t.pie_opacity),
        pie_palette: apply_slots(t.pie_palette, vars, "pie"@, 1, 13, 1),
        ..t
    }
}

/// The gitGraph variables: `git0`..`git7`, commit and tag label colors.
pub open spec fn git_vars(t: ThemeV, vars: Map<Seq<char>, String>) -> ThemeV {
    ThemeV {
        pie_palette: apply_slots(t.pie_palette, vars, "git"@, 0, 8, 0),
        commit_label_color: first_some(var(vars, "commitLabelColor"@), t.commit_label_color),
        tag_label_color: first_some(var(vars, "tagLabelColor"@), t.tag_label_color),
        ..t
    }
}

/// The generic categorical scale `cScale0`..`cScale11`.
pub open spec fn palette_vars(t: ThemeV, vars: Map<Seq<char>, String>) -> ThemeV {
    ThemeV { pie_palette: apply_slots(t.pie_palette, vars, "cScale"@, 0, 12, 0), ..t }
}

/// The general variables applied before the diagram-specific ones.
pub open spec fn general_vars(t: ThemeV, vars: Map<Seq<char>, String>) -> ThemeV {
    let primary = first_some(var(vars, "primaryColor"@), var(vars, "mainBkg"@));
    let border = first_some(var(vars, "primaryBorderColor"@), var(vars, "nodeBorder"@));
    let line = var(vars, "lineColor"@);
    ThemeV {
        flow_node_fill: or_else(primary, t.flow_node_fill),
        actor_fill: or_else(primary, t.actor_fill),
        activation_fill: or_else(primary, t.activation_fill),
        flow_node_stroke: or_else(border, t.flow_node_stroke),
        actor_stroke: or_else(border, t.actor_stroke),
        activation_stroke: or_else(border, t.activation_stroke),
        fg: or_else(var(vars, "textColor"@), or_else(var(vars, "primaryTextColor"@), t.fg)),
        arrow_stroke: or_else(line, t.arrow_stroke),
        flow_edge_stroke: or_else(line, t.flow_edge_stroke),
        lifeline: or_else(line, t.lifeline),
        flow_cluster_fill: or_else(
            var(vars, "clusterBkg"@),
            or_else(var(vars, "secondaryColor"@), t.flow_cluster_fill),
        ),
        frame_label_fill: or_else(var(vars, "tertiaryColor"@), t.frame_label_fill),
        bg: or_else(first_some(var(vars, "background"@), var(vars, "bg"@)), t.bg),
        note_fill: or_else(var(vars, "noteBkgColor"@), t.note_fill),
        note_stroke: or_else(var(vars, "noteBorderColor"@), t.note_stroke),
        flow_cluster_stroke: or_else(var(vars, "clusterBorder"@), t.flow_cluster_stroke),
        title_color: first_some(var(vars, "titleColor"@), t.title_color),
        flow_label_bg: or_else(var(vars, "edgeLabelBackground"@), t.flow_label_bg),
        ..t
    }
}

/// The quadrant fills and font family, applied last.
pub open spec fn final_vars(t: ThemeV, vars: Map<Seq<char>, String>) -> ThemeV {
    ThemeV {
        quadrant_fills: seq![
            first_some(var(vars, "quadrant1Fill"@), t.quadrant_fills[0]),
            first_some(var(vars, "quadrant2Fill"@), t.quadrant_fills[1]),
            first_some(var(vars, "quadrant3Fill"@), t.quadrant_fills[2]),
            first_some(var(vars, "quadrant4Fill"@), t.quadrant_fills[3]),
        ],
        font_family: or_else(var(vars, "fontFamily"@), t.font_family),
        ..t
    }
}

/// A theme recolored by `themeVariables`, in the order the variables are
/// applied: general, sequence, pie, gitGraph, categorical scale, quadrants
/// and font family. Unknown variables are ignored.
pub open spec fn theme_vars_spec(t: ThemeV, vars: Map<Seq<char>, String>) -> ThemeV {
    final_vars(
        palette_vars(git_vars(pie_vars(sequence_vars(general_vars(t, vars), vars), vars), vars), vars),
        vars,
    )
}

fn var_exec(vars: &StringHashMap<String>, k: &str) -> (r: Option<String>)
    ensures
        opt_view(r) == var(vars@, k@),
{
    match vars.get(k) {
        Some(v) => Some(v.clone()),
        None => None,
    }
}

fn set_str(field: &mut String, v: &Option<String>)
    ensures
        final(field)@ == or_else(opt_view(*v), old(field)@),
{
    match v {
        Some(x) => {
            *field = x.clone();
        },
        None => {},
    }
}

fn set_opt(field: &mut Option<String>, v: &Option<String>)
    ensures
        opt_view(*final(field)) == first_some(opt_view(*v), opt_view(*old(field))),
{
    match v {
        Some(x) => {
            *field = Some(x.clone());
        },
        None => {},
    }
}

fn or_var(a: Option<String>, b: Option<String>) -> (r: Option<String>)
    ensures
        opt_view(r) == first_some(opt_view(a), opt_view(b)),
{
    match a {
        Some(v) => Some(v),
        None => b,
    }
}

/// `prefix` followed by the decimal digits of `n`.
fn numbered_key(prefix: &str, n: u32) -> (r: String)
    ensures
        r@ == prefix@ + decimal(n as nat),
{
    let mut k = chars_of(prefix);
    push_decimal(&mut k, n);
    string_of(k.as_slice())
}

impl Theme {
    /// The built-in theme named `name` (`default`, `base`, `dark`, `forest`,
    /// `neutral`), or `None`.
    pub fn by_name(name: &str) -> (r: Option<Theme>)
        ensures
            match r {
                Some(t) => by_name_spec(name@) == Some(t@),
                None => by_name_spec(name@) is None,
            },
    {
        let n = chars_of(name);
        if crate::text::eq_str(n.as_slice(), "default") {
            Some(Self::default_theme())
        } else if crate::text::eq_str(n.as_slice(), "base") {
            Some(Self::base())
        } else if crate::text::eq_str(n.as_slice(), "dark") {
            Some(Self::dark())
        } else if crate::text::eq_str(n.as_slice(), "forest") {
            Some(Self::forest())
        } else if crate::text::eq_str(n.as_slice(), "neutral") {
            Some(Self::neutral())
        } else {
            None
        }
    }

    /// Palette color `i`, cycling through the palette.
    pub fn pie_color(&self, i: usize) -> (r: &str)
        requires
            self.pie_palette.len() > 0,
        ensures
            r@ == self@.pie_palette[(i % self.pie_palette.len()) as int],
    {
        self.pie_palette[i % self.pie_palette.len()].as_str()
    }

    /// Pie slice/legend stroke, defaulting to white.
    pub fn pie_stroke(&self) -> (r: &str)
        ensures
            r@ == or_else(self@.pie_stroke, "#fff"@),
    {
        match &self.pie_stroke {
            Some(c) => c.as_str(),
            None => "#fff",
        }
    }

    /// Sequence actor name text color.
    pub fn actor_text(&self) -> (r: &str)
        ensures
            r@ == or_else(self@.actor_text_color, self@.fg),
    {
        match &self.actor_text_color {
            Some(c) => c.as_str(),
            None => self.fg.as_str(),
        }
    }

    /// Sequence message text color.
    pub fn signal_text(&self) -> (r: &str)
        ensures
            r@ == or_else(self@.signal_text_color, self@.fg),
    {
        match &self.signal_text_color {
            Some(c) => c.as_str(),
            None => self.fg.as_str(),
        }
    }

    /// Diagram title color.
    pub fn title(&self) -> (r: &str)
        ensures
            r@ == or_else(self@.title_color, self@.fg),
    {
        match &self.title_color {
            Some(c) => c.as_str(),
            None => self.fg.as_str(),
        }
    }

    /// gitGraph commit label color.
    pub fn commit_label(&self) -> (r: &str)
        ensures
            r@ == or_else(self@.commit_label_color, self@.fg_muted),
    {
        match &self.commit_label_color {
            Some(c) => c.as_str(),
            None => self.fg_muted.as_str(),
        }
    }

    /// gitGraph tag label color.
    pub fn tag_label(&self) -> (r: &str)
        ensures
            r@ == or_else(self@.tag_label_color, self@.fg),
    {
        match &self.tag_label_color {
            Some(c) => c.as_str(),
            None => self.fg.as_str(),
        }
    }

    /// Fill of quadrant `quadrant` (1-based): its `quadrant{N}Fill`
    /// override, else palette color `palette_index`.
    pub fn quadrant_fill(&self, quadrant: usize, palette_index: usize) -> (r: &str)
        requires
            quadrant >= 1,
            quadrant > 4 || self@.quadrant_fills[quadrant - 1] is None ==> self.pie_palette.len() > 0,
        ensures
            r@ == if quadrant <= 4 && self@.quadrant_fills[quadrant - 1] is Some {
                self@.quadrant_fills[quadrant - 1].unwrap()
            } else {
                self@.pie_palette[(palette_index % self.pie_palette.len()) as int]
            },
    {
        if quadrant <= 4 {
            match &self.quadrant_fills[quadrant - 1] {
                Some(c) => {
                    return c.as_str();
                },
                None => {},
            }
        }
        self.pie_color(palette_index)
    }

    /// The theme with another root `font-family`.
    pub fn with_font(self, family: String) -> (r: Theme)
        ensures
            r@ == (ThemeV { font_family: family@, ..self@ }),
    {
        let mut t = self;
        t.font_family = family;
        t
    }

    /// Set palette slot `i` to `c`, growing the palette with the wrapped
    /// colors so untouched slots keep their defaults.
    fn set_palette(&mut self, i: usize, c: String)
        requires
            old(self).pie_palette.len() > 0,
        ensures
            final(self)@ == (ThemeV {
                pie_palette: set_slot(old(self)@.pie_palette, i as int, c@),
                ..old(self)@
            }),
            final(self).pie_palette.len() > 0,
    {
        let ghost base = self@.pie_palette;
        let mut copy: Vec<String> = Vec::new();
        let mut m: usize = 0;
        while m < self.pie_palette.len()
            invariant
                m <= self.pie_palette.len(),
                base == strings_view(self.pie_palette@),
                strings_view(copy@) == base.take(m as int),
            decreases self.pie_palette.len() - m,
        {
            let item = self.pie_palette[m].clone();
            let ghost prev = copy@;
            copy.push(item);
            assert(strings_view(copy@) =~= strings_view(prev).push(base[m as int]));
            assert(base.take(m + 1) =~= base.take(m as int).push(base[m as int]));
            m = m + 1;
        }
        assert(base.take(base.len() as int) =~= base);
        while self.pie_palette.len() <= i
            invariant
                strings_view(copy@) == base,
                base.len() > 0,
                grow_palette(base, base, i as int) == grow_palette(
                    strings_view(self.pie_palette@),
                    base,
                    i as int,
                ),
                self.pie_palette.len() > 0,
                self@ == (ThemeV { pie_palette: strings_view(self.pie_palette@), ..old(self)@ }),
            decreases i + 1 - self.pie_palette.len(),
        {
            let fill = copy[self.pie_palette.len() % copy.len()].clone();
            let ghost before = strings_view(self.pie_palette@);
            self.pie_palette.push(fill);
            assert(strings_view(self.pie_palette@) =~= before.push(base[(before.len() % base.len()) as int]));
        }
        let ghost grown = strings_view(self.pie_palette@);
        self.pie_palette.set(i, c);
        assert(strings_view(self.pie_palette@) =~= grown.update(i as int, c@));
    }

    fn apply_slots_exec(
        &mut self,
        vars: &StringHashMap<String>,
        prefix: &str,
        start: u32,
        end: u32,
        shift: u32,
    )
        requires
            old(self).pie_palette.len() > 0 || slot_keys_absent(vars@, prefix@, start as int, end as int),
            shift <= start <= end,
        ensures
            final(self)@ == (ThemeV {
                pie_palette: apply_slots(
                    old(self)@.pie_palette,
                    vars@,
                    prefix@,
                    start as int,
                    end as int,
                    shift as int,
                ),
                ..old(self)@
            }),
            old(self).pie_palette.len() > 0 ==> final(self).pie_palette.len() > 0,
    {
        let mut n = start;
        while n < end
            invariant
                shift <= start <= n <= end,
                old(self).pie_palette.len() > 0 ==> self.pie_palette.len() > 0,
                self.pie_palette.len() > 0 || slot_keys_absent(vars@, prefix@, start as int, end as int),
                apply_slots(old(self)@.pie_palette, vars@, prefix@, start as int, end as int, shift as int)
                    == apply_slots(self@.pie_palette, vars@, prefix@, n as int, end as int, shift as int),
                self@ == (ThemeV { pie_palette: self@.pie_palette, ..old(self)@ }),
            decreases end - n,
        {
            let key = numbered_key(prefix, n);
            match var_exec(vars, key.as_str()) {
                Some(v) => {
                    self.set_palette((n - shift) as usize, v);
                },
                None => {},
            }
            n = n + 1;
        }
    }

    fn apply_general_variables(&mut self, vars: &StringHashMap<String>)
        ensures
            final(self)@ == general_vars(old(self)@, vars@),
            final(self).pie_palette@ == old(self).pie_palette@,
    {
        let primary = or_var(var_exec(vars, "primaryColor"), var_exec(vars, "mainBkg"));
        set_str(&mut self.flow_node_fill, &primary);
        set_str(&mut self.actor_fill, &primary);
        set_str(&mut self.activation_fill, &primary);
        let border = or_var(var_exec(vars, "primaryBorderColor"), var_exec(vars, "nodeBorder"));
        set_str(&mut self.flow_node_stroke, &border);
        set_str(&mut self.actor_stroke, &border);
        set_str(&mut self.activation_stroke, &border);
        set_str(&mut self.fg, &var_exec(vars, "primaryTextColor"));
        let line = var_exec(vars, "lineColor");
        set_str(&mut self.arrow_stroke, &line);
        set_str(&mut self.flow_edge_stroke, &line);
        set_str(&mut self.lifeline, &line);
        set_str(&mut self.fg, &var_exec(vars, "textColor"));
        set_str(&mut self.flow_cluster_fill, &var_exec(vars, "secondaryColor"));
        set_str(&mut self.frame_label_fill, &var_exec(vars, "tertiaryColor"));
        let bg = or_var(var_exec(vars, "background"), var_exec(vars, "bg"));
        set_str(&mut self.bg, &bg);
        set_str(&mut self.note_fill, &var_exec(vars, "noteBkgColor"));
        set_str(&mut self.note_stroke, &var_exec(vars, "noteBorderColor"));
        set_str(&mut self.flow_cluster_fill, &var_exec(vars, "clusterBkg"));
        set_str(&mut self.flow_cluster_stroke, &var_exec(vars, "clusterBorder"));
        set_opt(&mut self.title_color, &var_exec(vars, "titleColor"));
        set_str(&mut self.flow_label_bg, &var_exec(vars, "edgeLabelBackground"));
    }

    /// Sequence-diagram `themeVariables` onto the shared sequence fields.
    fn apply_sequence_variables(&mut self, vars: &StringHashMap<String>)
        ensures
            final(self)@ == sequence_vars(old(self)@, vars@),
            final(self).pie_palette@ == old(self).pie_palette@,
    {
        set_str(&mut self.actor_fill, &var_exec(vars, "actorBkg"));
        set_str(&mut self.actor_stroke, &var_exec(vars, "actorBorder"));
        set_opt(&mut self.actor_text_color, &var_exec(vars, "actorTextColor"));
        set_str(&mut self.lifeline, &var_exec(vars, "actorLineColor"));
        set_str(&mut self.arrow_stroke, &var_exec(vars, "signalColor"));
        set_opt(&mut self.signal_text_color, &var_exec(vars, "signalTextColor"));
        set_str(&mut self.frame_label_fill, &var_exec(vars, "labelBoxBkgColor"));
        set_str(&mut self.activation_fill, &var_exec(vars, "activationBkgColor"));
        set_str(&mut self.activation_stroke, &var_exec(vars, "activationBorderColor"));
    }

    /// Pie-chart `themeVariables`: title, slice stroke/opacity and the
    /// `pie{1..12}` palette overrides.
    fn apply_pie_variables(&mut self, vars: &StringHashMap<String>)
        requires
            old(self).pie_palette.len() > 0 || slot_keys_absent(vars@, "pie"@, 1, 13),
        ensures
            final(self)@ == pie_vars(old(self)@, vars@),
            old(self).pie_palette.len() > 0 ==> final(self).pie_palette.len() > 0,
    {
        set_opt(&mut self.title_color, &var_exec(vars, "pieTitleTextColor"));
        set_opt(&mut self.pie_stroke, &var_exec(vars, "pieStrokeColor"));
        set_opt(&mut self.pie_opacity, &var_exec(vars, "pieOpacity"));
        self.apply_slots_exec(vars, "pie", 1, 13, 1);
    }

    /// gitGraph `themeVariables`: the `git{0..7}` palette and label colors.
    fn apply_git_variables(&mut self, vars: &StringHashMap<String>)
        requires
            old(self).pie_palette.len() > 0 || slot_keys_absent(vars@, "git"@, 0, 8),
        ensures
            final(self)@ == git_vars(old(self)@, vars@),
            old(self).pie_palette.len() > 0 ==> final(self).pie_palette.len() > 0,
    {
        self.apply_slots_exec(vars, "git", 0, 8, 0);
        set_opt(&mut self.commit_label_color, &var_exec(vars, "commitLabelColor"));
        set_opt(&mut self.tag_label_color, &var_exec(vars, "tagLabelColor"));
    }

    /// The generic `cScale{0..11}` categorical scale.
    fn apply_palette_variables(&mut self, vars: &StringHashMap<String>)
        requires
            old(self).pie_palette.len() > 0 || slot_keys_absent(vars@, "cScale"@, 0, 12),
        ensures
            final(self)@ == palette_vars(old(self)@, vars@),
            old(self).pie_palette.len() > 0 ==> final(self).pie_palette.len() > 0,
    {
        self.apply_slots_exec(vars, "cScale", 0, 12, 0);
    }

    /// Recolor the theme from Mermaid `themeVariables` (see
    /// [`theme_vars_spec`]); `fontSize` is read by the caller, which holds
    /// the font size. A variable that sets a palette slot grows the palette
    /// by repeating its colors, so it needs a non-empty palette.
    pub fn apply_theme_variables(&mut self, vars: &StringHashMap<String>)
        requires
            sets_palette(vars@) ==> old(self).pie_palette.len() > 0,
        ensures
            final(self)@ == theme_vars_spec(old(self)@, vars@),
            old(self).pie_palette.len() > 0 ==> final(self).pie_palette.len() > 0,
    {
        self.apply_general_variables(vars);
        self.apply_sequence_variables(vars);
        self.apply_pie_variables(vars);
        self.apply_git_variables(vars);
        self.apply_palette_variables(vars);
        let ghost mid = self@;
        set_opt(&mut self.quadrant_fills[0], &var_exec(vars, "quadrant1Fill"));
        set_opt(&mut self.quadrant_fills[1], &var_exec(vars, "quadrant2Fill"));
        set_opt(&mut self.quadrant_fills[2], &var_exec(vars, "quadrant3Fill"));
        set_opt(&mut self.quadrant_fills[3], &var_exec(vars, "quadrant4Fill"));
        set_str(&mut self.font_family, &var_exec(vars, "fontFamily"));
        assert(self@.quadrant_fills =~= final_vars(mid, vars@).quadrant_fills);
    }
}

/// The default theme.
impl Default for Theme {
    fn default() -> (r: Theme)
        ensures
            r@ == default_theme_spec(),
    {
        Self::default_theme()
    }
}


/// The variable names a theme reads (besides `fontSize`).
pub open spec fn is_theme_var(k: Seq<char>) -> bool {
    ||| k == "primaryColor"@ || k == "mainBkg"@ || k == "primaryBorderColor"@ || k == "nodeBorder"@ || k == "primaryTextColor"@ || k == "lineColor"@ || k == "textColor"@ || k == "secondaryColor"@ || k == "tertiaryColor"@ || k == "background"@ || k == "bg"@ || k == "noteBkgColor"@ || k == "noteBorderColor"@ || k == "clusterBkg"@ || k == "clusterBorder"@ || k == "titleColor"@ || k == "edgeLabelBackground"@ || k == "actorBkg"@ || k == "actorBorder"@ || k == "actorTextColor"@ || k == "actorLineColor"@ || k == "signalColor"@ || k == "signalTextColor"@ || k == "labelBoxBkgColor"@ || k == "activationBkgColor"@ || k == "activationBorderColor"@ || k == "pieTitleTextColor"@ || k == "pieStrokeColor"@ || k == "pieOpacity"@ || k == "commitLabelColor"@ || k == "tagLabelColor"@ || k == "quadrant1Fill"@ || k == "quadrant2Fill"@ || k == "quadrant3Fill"@ || k == "quadrant4Fill"@ || k == "fontFamily"@
    ||| exists|n: nat| 1 <= n <= 12 && k == "pie"@ + decimal(n)
    ||| exists|n: nat| n < 8 && k == "git"@ + decimal(n)
    ||| exists|n: nat| n < 12 && k == "cScale"@ + decimal(n)
}

proof fn lemma_slots_untouched(
    pal: Seq<Seq<char>>,
    vars: Map<Seq<char>, String>,
    prefix: Seq<char>,
    n: int,
    end: int,
    shift: int,
)
    requires
        forall|m: nat| n <= m < end ==> !vars.contains_key(#[trigger] (prefix + decimal(m))),
    ensures
        apply_slots(pal, vars, prefix, n, end, shift) == pal,
    decreases end - n,
{
    if n < end && n >= 0 {
        assert(!vars.contains_key(prefix + decimal(n as nat)));
        lemma_slots_untouched(pal, vars, prefix, n + 1, end, shift);
    }
}

/// Unknown variables are ignored: variables that name nothing the theme
/// reads leave it unchanged.
pub proof fn law_unknown_variables_ignored(t: ThemeV, vars: Map<Seq<char>, String>)
    requires
        t.quadrant_fills.len() == 4,
        forall|k: Seq<char>| vars.contains_key(k) ==> !is_theme_var(k),
    ensures
        theme_vars_spec(t, vars) == t,
{
    assert forall|m: nat| 1 <= m < 13 implies !vars.contains_key(#[trigger] ("pie"@ + decimal(m))) by {
        if vars.contains_key("pie"@ + decimal(m)) {
            assert(is_theme_var("pie"@ + decimal(m)));
        }
    }
    assert forall|m: nat| 0 <= m < 8 implies !vars.contains_key(#[trigger] ("git"@ + decimal(m))) by {
        if vars.contains_key("git"@ + decimal(m)) {
            assert(is_theme_var("git"@ + decimal(m)));
        }
    }
    assert forall|m: nat| 0 <= m < 12 implies !vars.contains_key(#[trigger] ("cScale"@ + decimal(m))) by {
        if vars.contains_key("cScale"@ + decimal(m)) {
            assert(is_theme_var("cScale"@ + decimal(m)));
        }
    }
    assert(!vars.contains_key("primaryColor"@)) by {
        if vars.contains_key("primaryColor"@) {
            assert(is_theme_var("primaryColor"@));
        }
    }
    assert(!vars.contains_key("mainBkg"@)) by {
        if vars.contains_key("mainBkg"@) {
            assert(is_theme_var("mainBkg"@));
        }
    }
    assert(!vars.contains_key("primaryBorderColor"@)) by {
        if vars.contains_key("primaryBorderColor"@) {
            assert(is_theme_var("primaryBorderColor"@));
        }
    }
    assert(!vars.contains_key("nodeBorder"@)) by {
        if vars.contains_key("nodeBorder"@) {
            assert(is_theme_var("nodeBorder"@));
        }
    }
    assert(!vars.contains_key("primaryTextColor"@)) by {
        if vars.contains_key("primaryTextColor"@) {
            assert(is_theme_var("primaryTextColor"@));
        }
    }
    assert(!vars.contains_key("lineColor"@)) by {
        if vars.contains_key("lineColor"@) {
            assert(is_theme_var("lineColor"@));
        }
    }
    assert(!vars.contains_key("textColor"@)) by {
        if vars.contains_key("textColor"@) {
            assert(is_theme_var("textColor"@));
        }
    }
    assert(!vars.contains_key("secondaryColor"@)) by {
        if vars.contains_key("secondaryColor"@) {
            assert(is_theme_var("secondaryColor"@));
        }
    }
    assert(!vars.contains_key("tertiaryColor"@)) by {
        if vars.contains_key("tertiaryColor"@) {
            assert(is_theme_var("tertiaryColor"@));
        }
    }
    assert(!vars.contains_key("background"@)) by {
        if vars.contains_key("background"@) {
            assert(is_theme_var("background"@));
        }
    }
    assert(!vars.contains_key("bg"@)) by {
        if vars.contains_key("bg"@) {
            assert(is_theme_var("bg"@));
        }
    }
    assert(!vars.contains_key("noteBkgColor"@)) by {
        if vars.contains_key("noteBkgColor"@) {
            assert(is_theme_var("noteBkgColor"@));
        }
    }
    assert(!vars.contains_key("noteBorderColor"@)) by {
        if vars.contains_key("noteBorderColor"@) {
            assert(is_theme_var("noteBorderColor"@));
        }
    }
    assert(!vars.contains_key("clusterBkg"@)) by {
        if vars.contains_key("clusterBkg"@) {
            assert(is_theme_var("clusterBkg"@));
        }
    }
    assert(!vars.contains_key("clusterBorder"@)) by {
        if vars.contains_key("clusterBorder"@) {
            assert(is_theme_var("clusterBorder"@));
        }
    }
    assert(!vars.contains_key("titleColor"@)) by {
        if vars.contains_key("titleColor"@) {
            assert(is_theme_var("titleColor"@));
        }
    }
    assert(!vars.contains_key("edgeLabelBackground"@)) by {
        if vars.contains_key("edgeLabelBackground"@) {
            assert(is_theme_var("edgeLabelBackground"@));
        }
    }
    assert(!vars.contains_key("actorBkg"@)) by {
        if vars.contains_key("actorBkg"@) {
            assert(is_theme_var("actorBkg"@));
        }
    }
    assert(!vars.contains_key("actorBorder"@)) by {
        if vars.contains_key("actorBorder"@) {
            assert(is_theme_var("actorBorder"@));
        }
    }
    assert(!vars.contains_key("actorTextColor"@)) by {
        if vars.contains_key("actorTextColor"@) {
            assert(is_theme_var("actorTextColor"@));
        }
    }
    assert(!vars.contains_key("actorLineColor"@)) by {
        if vars.contains_key("actorLineColor"@) {
            assert(is_theme_var("actorLineColor"@));
        }
    }
    assert(!vars.contains_key("signalColor"@)) by {
        if vars.contains_key("signalColor"@) {
            assert(is_theme_var("signalColor"@));
        }
    }
    assert(!vars.contains_key("signalTextColor"@)) by {
        if vars.contains_key("signalTextColor"@) {
            assert(is_theme_var("signalTextColor"@));
        }
    }
    assert(!vars.contains_key("labelBoxBkgColor"@)) by {
        if vars.contains_key("labelBoxBkgColor"@) {
            assert(is_theme_var("labelBoxBkgColor"@));
        }
    }
    assert(!vars.contains_key("activationBkgColor"@)) by {
        if vars.contains_key("activationBkgColor"@) {
            assert(is_theme_var("activationBkgColor"@));
        }
    }
    assert(!vars.contains_key("activationBorderColor"@)) by {
        if vars.contains_key("activationBorderColor"@) {
            assert(is_theme_var("activationBorderColor"@));
        }
    }
    assert(!vars.contains_key("pieTitleTextColor"@)) by {
        if vars.contains_key("pieTitleTextColor"@) {
            assert(is_theme_var("pieTitleTextColor"@));
        }
    }
    assert(!vars.contains_key("pieStrokeColor"@)) by {
        if vars.contains_key("pieStrokeColor"@) {
            assert(is_theme_var("pieStrokeColor"@));
        }
    }
    assert(!vars.contains_key("pieOpacity"@)) by {
        if vars.contains_key("pieOpacity"@) {
            assert(is_theme_var("pieOpacity"@));
        }
    }
    assert(!vars.contains_key("commitLabelColor"@)) by {
        if vars.contains_key("commitLabelColor"@) {
            assert(is_theme_var("commitLabelColor"@));
        }
    }
    assert(!vars.contains_key("tagLabelColor"@)) by {
        if vars.contains_key("tagLabelColor"@) {
            assert(is_theme_var("tagLabelColor"@));
        }
    }
    assert(!vars.contains_key("quadrant1Fill"@)) by {
        if vars.contains_key("quadrant1Fill"@) {
            assert(is_theme_var("quadrant1Fill"@));
        }
    }
    assert(!vars.contains_key("quadrant2Fill"@)) by {
        if vars.contains_key("quadrant2Fill"@) {
            assert(is_theme_var("quadrant2Fill"@));
        }
    }
    assert(!vars.contains_key("quadrant3Fill"@)) by {
        if vars.contains_key("quadrant3Fill"@) {
            assert(is_theme_var("quadrant3Fill"@));
        }
    }
    assert(!vars.contains_key("quadrant4Fill"@)) by {
        if vars.contains_key("quadrant4Fill"@) {
            assert(is_theme_var("quadrant4Fill"@));
        }
    }
    assert(!vars.contains_key("fontFamily"@)) by {
        if vars.contains_key("fontFamily"@) {
            assert(is_theme_var("fontFamily"@));
        }
    }
    lemma_slots_untouched(t.pie_palette, vars, "pie"@, 1, 13, 1);
    lemma_slots_untouched(t.pie_palette, vars, "git"@, 0, 8, 0);
    lemma_slots_untouched(t.pie_palette, vars, "cScale"@, 0, 12, 0);
    assert(theme_vars_spec(t, vars).quadrant_fills =~= t.quadrant_fills);
}

proof fn lemma_grow(pal: Seq<Seq<char>>, base: Seq<Seq<char>>, i: int)
    requires
        base.len() > 0,
    ensures
        grow_palette(pal, base, i).len() == if pal.len() > i {
            pal.len() as int
        } else {
            i + 1
        },
        forall|j: int| 0 <= j < pal.len() ==> #[trigger] grow_palette(pal, base, i)[j] == pal[j],
        forall|j: int|
            pal.len() <= j < grow_palette(pal, base, i).len() ==> #[trigger] grow_palette(
                pal,
                base,
                i,
            )[j] == base[j % (base.len() as int)],
    decreases i + 1 - pal.len(),
{
    if pal.len() <= i {
        let p2 = pal.push(base[(pal.len() % base.len()) as int]);
        lemma_grow(p2, base, i);
        assert forall|j: int| 0 <= j < pal.len() implies #[trigger] grow_palette(pal, base, i)[j]
            == pal[j] by {
            assert(p2[j] == pal[j]);
        }
    }
}

/// Setting a palette slot: the slot holds the new color, every other slot
/// that existed keeps its color, and slots added to reach the index repeat
/// the palette from its start.
pub proof fn law_set_slot(pal: Seq<Seq<char>>, i: int, c: Seq<char>)
    requires
        pal.len() > 0,
        i >= 0,
    ensures
        set_slot(pal, i, c).len() == if pal.len() > i {
            pal.len() as int
        } else {
            i + 1
        },
        set_slot(pal, i, c)[i] == c,
        forall|j: int| 0 <= j < pal.len() && j != i ==> #[trigger] set_slot(pal, i, c)[j] == pal[j],
        forall|j: int|
            pal.len() <= j < set_slot(pal, i, c).len() && j != i ==> #[trigger] set_slot(pal, i, c)[j]
                == pal[j % (pal.len() as int)],
{
    lemma_grow(pal, pal, i);
}

/// The map a list of `(name, value)` variables defines: a later entry for a
/// name replaces an earlier one.
pub open spec fn vars_map(pairs: Seq<(String, String)>) -> Map<Seq<char>, String>
    decreases pairs.len(),
{
    if pairs.len() == 0 {
        Map::empty()
    } else {
        vars_map(pairs.drop_last()).insert(pairs.last().0@, pairs.last().1)
    }
}

/// Collect `themeVariables` entries, such as those of an ordered map, into
/// the lookup table [`Theme::apply_theme_variables`] reads.
pub fn theme_variables(pairs: &[(String, String)]) -> (m: StringHashMap<String>)
    ensures
        m@ == vars_map(pairs@),
{
    let mut m: StringHashMap<String> = StringHashMap::new();
    let mut i: usize = 0;
    while i < pairs.len()
        invariant
            i <= pairs.len(),
            m@ == vars_map(pairs@.take(i as int)),
        decreases pairs.len() - i,
    {
        m.insert(pairs[i].0.clone(), pairs[i].1.clone());
        i = i + 1;
        assert(pairs@.take(i as int).drop_last() =~= pairs@.take(i - 1));
    }
    assert(pairs@.take(pairs.len() as int) =~= pairs@);
    m
}

fn copy_opt(o: &Option<String>) -> (r: Option<String>)
    ensures
        opt_view(r) == opt_view(*o),
{
    match o {
        Some(v) => Some(v.clone()),
        None => None,
    }
}

fn copy_strings(v: &Vec<String>) -> (r: Vec<String>)
    ensures
        strings_view(r@) == strings_view(v@),
{
    let mut out: Vec<String> = Vec::new();
    let mut i: usize = 0;
    while i < v.len()
        invariant
            i <= v.len(),
            strings_view(out@) == strings_view(v@).take(i as int),
        decreases v.len() - i,
    {
        let ghost prev = out@;
        out.push(v[i].clone());
        assert(strings_view(out@) =~= strings_view(prev).push(v@[i as int]@));
        assert(strings_view(v@).take(i + 1) =~= strings_view(v@).take(i as int).push(v@[i as int]@));
        i = i + 1;
    }
    assert(strings_view(v@).take(v.len() as int) =~= strings_view(v@));
    out
}

impl Theme {
    /// A copy of the theme.
    pub fn duplicate(&self) -> (r: Theme)
        ensures
            r@ == self@,
    {
        let q = [
            copy_opt(&self.quadrant_fills[0]),
            copy_opt(&self.quadrant_fills[1]),
            copy_opt(&self.quadrant_fills[2]),
            copy_opt(&self.quadrant_fills[3]),
        ];
        let r = Theme {
            fg: self.fg.clone(),
            fg_muted: self.fg_muted.clone(),
            bg: self.bg.clone(),
            actor_fill: self.actor_fill.clone(),
            actor_stroke: self.actor_stroke.clone(),
            actor_text_color: copy_opt(&self.actor_text_color),
            lifeline: self.lifeline.clone(),
            arrow_stroke: self.arrow_stroke.clone(),
            signal_text_color: copy_opt(&self.signal_text_color),
            note_fill: self.note_fill.clone(),
            note_stroke: self.note_stroke.clone(),
            activation_fill: self.activation_fill.clone(),
            activation_stroke: self.activation_stroke.clone(),
            frame_label_fill: self.frame_label_fill.clone(),
            title_color: copy_opt(&self.title_color),
            flow_node_fill: self.flow_node_fill.clone(),
            flow_node_stroke: self.flow_node_stroke.clone(),
            flow_edge_stroke: self.flow_edge_stroke.clone(),
            flow_label_bg: self.flow_label_bg.clone(),
            flow_cluster_fill: self.flow_cluster_fill.clone(),
            flow_cluster_stroke: self.flow_cluster_stroke.clone(),
            pie_palette: copy_strings(&self.pie_palette),
            pie_stroke: copy_opt(&self.pie_stroke),
            pie_opacity: copy_opt(&self.pie_opacity),
            commit_label_color: copy_opt(&self.commit_label_color),
            tag_label_color: copy_opt(&self.tag_label_color),
            quadrant_fills: q,
            font_family: self.font_family.clone(),
            responsive: self.responsive,
        };
        assert(r@.quadrant_fills =~= self@.quadrant_fills);
        r
    }
}

/// The theme settings of a diagram's source preamble (frontmatter
/// `config` or an `%%{init}%%` directive), besides the font size.
pub struct ThemeMeta {
    /// `config.theme`.
    pub theme: Option<String>,
    /// `themeVariables`.
    pub theme_variables: StringHashMap<String>,
    /// `fontFamily`.
    pub font_family: Option<String>,
    /// `useMaxWidth`.
    pub use_max_width: Option<bool>,
}

/// The theme a render uses: a built-in theme named in the preamble, else the
/// caller's; then `themeVariables`, the font family and `useMaxWidth` on
/// top.
pub open spec fn theme_from_meta_spec(
    caller: ThemeV,
    name: Option<Seq<char>>,
    vars: Map<Seq<char>, String>,
    font_family: Option<Seq<char>>,
    use_max_width: Option<bool>,
) -> ThemeV {
    let base = match name {
        Some(n) => match by_name_spec(n) {
            Some(t) => t,
            None => caller,
        },
        None => caller,
    };
    let t1 = if vars.is_empty() {
        base
    } else {
        theme_vars_spec(base, vars)
    };
    let t2 = match font_family {
        Some(f) => ThemeV { font_family: f, ..t1 },
        None => t1,
    };
    match use_max_width {
        Some(b) => ThemeV { responsive: b, ..t2 },
        None => t2,
    }
}

/// Does `name` name a built-in theme?
pub open spec fn names_builtin(name: Option<Seq<char>>) -> bool {
    match name {
        Some(n) => by_name_spec(n) is Some,
        None => false,
    }
}

/// The effective theme of a render from the caller's theme and the
/// preamble settings (see [`theme_from_meta_spec`]).
pub fn theme_from_meta(caller: &Theme, meta: &ThemeMeta) -> (r: Theme)
    requires
        !names_builtin(opt_view(meta.theme)) && sets_palette(meta.theme_variables@)
            ==> caller.pie_palette.len() > 0,
    ensures
        r@ == theme_from_meta_spec(
            caller@,
            opt_view(meta.theme),
            meta.theme_variables@,
            opt_view(meta.font_family),
            meta.use_max_width,
        ),
{
    let named = match &meta.theme {
        Some(n) => Theme::by_name(n.as_str()),
        None => None,
    };
    let mut effective = match named {
        Some(t) => t,
        None => caller.duplicate(),
    };
    proof {
        if names_builtin(opt_view(meta.theme)) {
            lemma_builtin_palettes(opt_view(meta.theme)->0);
        }
        assert(effective@.pie_palette.len() == effective.pie_palette@.len());
        assert(caller@.pie_palette.len() == caller.pie_palette@.len());
    }
    if !meta.theme_variables.is_empty() {
        effective.apply_theme_variables(&meta.theme_variables);
    }
    match &meta.font_family {
        Some(f) => {
            effective.font_family = f.clone();
        },
        None => {},
    }
    match meta.use_max_width {
        Some(b) => {
            effective.responsive = b;
        },
        None => {},
    }
    effective
}

proof fn lemma_builtin_palettes(name: Seq<char>)
    requires
        by_name_spec(name) is Some,
    ensures
        by_name_spec(name)->0.pie_palette.len() > 0,
{
}

/// A built-in theme named in the preamble replaces the caller's theme
/// entirely: the caller's colors play no part.
pub proof fn law_named_theme_overrides_caller(
    c1: ThemeV,
    c2: ThemeV,
    name: Option<Seq<char>>,
    vars: Map<Seq<char>, String>,
    font_family: Option<Seq<char>>,
    use_max_width: Option<bool>,
)
    requires
        names_builtin(name),
    ensures
        theme_from_meta_spec(c1, name, vars, font_family, use_max_width) == theme_from_meta_spec(
            c2,
            name,
            vars,
            font_family,
            use_max_width,
        ),
{
}

/// The preamble's `fontFamily` and `useMaxWidth` win over the base theme and
/// over `themeVariables`.
pub proof fn law_preamble_font_and_width_win(
    caller: ThemeV,
    name: Option<Seq<char>>,
    vars: Map<Seq<char>, String>,
    family: Seq<char>,
    width: bool,
)
    ensures
        theme_from_meta_spec(caller, name, vars, Some(family), Some(width)).font_family == family,
        theme_from_meta_spec(caller, name, vars, Some(family), Some(width)).responsive == width,
{
}

fn any_slot_key(vars: &StringHashMap<String>, prefix: &str, start: u32, end: u32) -> (r: bool)
    requires
        start <= end,
    ensures
        r == !slot_keys_absent(vars@, prefix@, start as int, end as int),
{
    let mut n = start;
    while n < end
        invariant
            start <= n <= end,
            slot_keys_absent(vars@, prefix@, start as int, n as int),
        decreases end - n,
    {
        let key = numbered_key(prefix, n);
        if vars.contains_key(key.as_str()) {
            assert(vars@.contains_key(prefix@ + decimal(n as nat)));
            return true;
        }
        n = n + 1;
    }
    false
}

/// Does some variable set a palette slot (see [`sets_palette`])? Applying
/// such variables needs a non-empty palette.
pub fn sets_palette_vars(vars: &StringHashMap<String>) -> (r: bool)
    ensures
        r == sets_palette(vars@),
{
    any_slot_key(vars, "pie", 1, 13) || any_slot_key(vars, "git", 0, 8) || any_slot_key(
        vars,
        "cScale",
        0,
        12,
    )
}

/// Which variable sets which theme color. Each color takes the value of the
/// first variable in its list that is given and otherwise keeps the theme's
/// own: node fill `primaryColor`, `mainBkg`; actor fill `actorBkg`, then the
/// primary color; note fill `noteBkgColor`; note stroke `noteBorderColor`;
/// text `textColor`, `primaryTextColor`; arrows `signalColor`, `lineColor`;
/// titles `pieTitleTextColor`, `titleColor`; and so on for every color. The
/// muted text color and the responsive flag are never changed.
pub proof fn law_theme_variable_targets(t: ThemeV, vars: Map<Seq<char>, String>)
    ensures
        theme_vars_spec(t, vars).flow_node_fill == (if vars.contains_key("primaryColor"@) { vars["primaryColor"@]@ } else { if vars.contains_key("mainBkg"@) { vars["mainBkg"@]@ } else { t.flow_node_fill } }),
        theme_vars_spec(t, vars).actor_fill == (if vars.contains_key("actorBkg"@) { vars["actorBkg"@]@ } else { if vars.contains_key("primaryColor"@) { vars["primaryColor"@]@ } else { if vars.contains_key("mainBkg"@) { vars["mainBkg"@]@ } else { t.actor_fill } } }),
        theme_vars_spec(t, vars).activation_fill == (if vars.contains_key("activationBkgColor"@) { vars["activationBkgColor"@]@ } else { if vars.contains_key("primaryColor"@) { vars["primaryColor"@]@ } else { if vars.contains_key("mainBkg"@) { vars["mainBkg"@]@ } else { t.activation_fill } } }),
        theme_vars_spec(t, vars).flow_node_stroke == (if vars.contains_key("primaryBorderColor"@) { vars["primaryBorderColor"@]@ } else { if vars.contains_key("nodeBorder"@) { vars["nodeBorder"@]@ } else { t.flow_node_stroke } }),
        theme_vars_spec(t, vars).actor_stroke == (if vars.contains_key("actorBorder"@) { vars["actorBorder"@]@ } else { if vars.contains_key("primaryBorderColor"@) { vars["primaryBorderColor"@]@ } else { if vars.contains_key("nodeBorder"@) { vars["nodeBorder"@]@ } else { t.actor_stroke } } }),
        theme_vars_spec(t, vars).activation_stroke == (if vars.contains_key("activationBorderColor"@) { vars["activationBorderColor"@]@ } else { if vars.contains_key("primaryBorderColor"@) { vars["primaryBorderColor"@]@ } else { if vars.contains_key("nodeBorder"@) { vars["nodeBorder"@]@ } else { t.activation_stroke } } }),
        theme_vars_spec(t, vars).fg == (if vars.contains_key("textColor"@) { vars["textColor"@]@ } else { if vars.contains_key("primaryTextColor"@) { vars["primaryTextColor"@]@ } else { t.fg } }),
        theme_vars_spec(t, vars).arrow_stroke == (if vars.contains_key("signalColor"@) { vars["signalColor"@]@ } else { if vars.contains_key("lineColor"@) { vars["lineColor"@]@ } else { t.arrow_stroke } }),
        theme_vars_spec(t, vars).flow_edge_stroke == (if vars.contains_key("lineColor"@) { vars["lineColor"@]@ } else { t.flow_edge_stroke }),
        theme_vars_spec(t, vars).lifeline == (if vars.contains_key("actorLineColor"@) { vars["actorLineColor"@]@ } else { if vars.contains_key("lineColor"@) { vars["lineColor"@]@ } else { t.lifeline } }),
        theme_vars_spec(t, vars).flow_cluster_fill == (if vars.contains_key("clusterBkg"@) { vars["clusterBkg"@]@ } else { if vars.contains_key("secondaryColor"@) { vars["secondaryColor"@]@ } else { t.flow_cluster_fill } }),
        theme_vars_spec(t, vars).frame_label_fill == (if vars.contains_key("labelBoxBkgColor"@) { vars["labelBoxBkgColor"@]@ } else { if vars.contains_key("tertiaryColor"@) { vars["tertiaryColor"@]@ } else { t.frame_label_fill } }),
        theme_vars_spec(t, vars).bg == (if vars.contains_key("background"@) { vars["background"@]@ } else { if vars.contains_key("bg"@) { vars["bg"@]@ } else { t.bg } }),
        theme_vars_spec(t, vars).note_fill == (if vars.contains_key("noteBkgColor"@) { vars["noteBkgColor"@]@ } else { t.note_fill }),
        theme_vars_spec(t, vars).note_stroke == (if vars.contains_key("noteBorderColor"@) { vars["noteBorderColor"@]@ } else { t.note_stroke }),
        theme_vars_spec(t, vars).flow_cluster_stroke == (if vars.contains_key("clusterBorder"@) { vars["clusterBorder"@]@ } else { t.flow_cluster_stroke }),
        theme_vars_spec(t, vars).flow_label_bg == (if vars.contains_key("edgeLabelBackground"@) { vars["edgeLabelBackground"@]@ } else { t.flow_label_bg }),
        theme_vars_spec(t, vars).font_family == (if vars.contains_key("fontFamily"@) { vars["fontFamily"@]@ } else { t.font_family }),
        theme_vars_spec(t, vars).title_color == (if vars.contains_key("pieTitleTextColor"@) { Some(vars["pieTitleTextColor"@]@) } else { if vars.contains_key("titleColor"@) { Some(vars["titleColor"@]@) } else { t.title_color } }),
        theme_vars_spec(t, vars).actor_text_color == (if vars.contains_key("actorTextColor"@) { Some(vars["actorTextColor"@]@) } else { t.actor_text_color }),
        theme_vars_spec(t, vars).signal_text_color == (if vars.contains_key("signalTextColor"@) { Some(vars["signalTextColor"@]@) } else { t.signal_text_color }),
        theme_vars_spec(t, vars).pie_stroke == (if vars.contains_key("pieStrokeColor"@) { Some(vars["pieStrokeColor"@]@) } else { t.pie_stroke }),
        theme_vars_spec(t, vars).pie_opacity == (if vars.contains_key("pieOpacity"@) { Some(vars["pieOpacity"@]@) } else { t.pie_opacity }),
        theme_vars_spec(t, vars).commit_label_color == (if vars.contains_key("commitLabelColor"@) { Some(vars["commitLabelColor"@]@) } else { t.commit_label_color }),
        theme_vars_spec(t, vars).tag_label_color == (if vars.contains_key("tagLabelColor"@) { Some(vars["tagLabelColor"@]@) } else { t.tag_label_color }),
        theme_vars_spec(t, vars).quadrant_fills[0] == (if vars.contains_key("quadrant1Fill"@) { Some(vars["quadrant1Fill"@]@) } else { t.quadrant_fills[0] }),
        theme_vars_spec(t, vars).quadrant_fills[1] == (if vars.contains_key("quadrant2Fill"@) { Some(vars["quadrant2Fill"@]@) } else { t.quadrant_fills[1] }),
        theme_vars_spec(t, vars).quadrant_fills[2] == (if vars.contains_key("quadrant3Fill"@) { Some(vars["quadrant3Fill"@]@) } else { t.quadrant_fills[2] }),
        theme_vars_spec(t, vars).quadrant_fills[3] == (if vars.contains_key("quadrant4Fill"@) { Some(vars["quadrant4Fill"@]@) } else { t.quadrant_fills[3] }),
        theme_vars_spec(t, vars).fg_muted == t.fg_muted,
        theme_vars_spec(t, vars).responsive == t.responsive,
{
}

proof fn lemma_slots_absent_identity(
    pal: Seq<Seq<char>>,
    vars: Map<Seq<char>, String>,
    prefix: Seq<char>,
    n: int,
    end: int,
    shift: int,
)
    requires
        n >= 0,
        slot_keys_absent(vars, prefix, n, end),
    ensures
        apply_slots(pal, vars, prefix, n, end, shift) == pal,
    decreases end - n,
{
    if n < end {
        assert(!vars.contains_key(prefix + decimal(n as nat)));
        lemma_slots_absent_identity(pal, vars, prefix, n + 1, end, shift);
    }
}

proof fn lemma_slots_keep(
    pal: Seq<Seq<char>>,
    vars: Map<Seq<char>, String>,
    prefix: Seq<char>,
    n: int,
    end: int,
    shift: int,
    k: int,
)
    requires
        pal.len() > 0,
        0 <= shift <= n,
        0 <= k < pal.len(),
        forall|m: nat|
            n <= m < end && #[trigger] vars.contains_key(prefix + decimal(m)) ==> m - shift != k,
    ensures
        apply_slots(pal, vars, prefix, n, end, shift).len() >= pal.len(),
        apply_slots(pal, vars, prefix, n, end, shift)[k] == pal[k],
    decreases end - n,
{
    if n < end {
        let key = prefix + decimal(n as nat);
        if vars.contains_key(key) {
            law_set_slot(pal, n - shift, vars[key]@);
            lemma_slots_keep(set_slot(pal, n - shift, vars[key]@), vars, prefix, n + 1, end, shift, k);
        } else {
            lemma_slots_keep(pal, vars, prefix, n + 1, end, shift, k);
        }
    }
}

proof fn lemma_slots_len(
    pal: Seq<Seq<char>>,
    vars: Map<Seq<char>, String>,
    prefix: Seq<char>,
    n: int,
    end: int,
    shift: int,
)
    requires
        pal.len() > 0,
        0 <= shift <= n,
    ensures
        apply_slots(pal, vars, prefix, n, end, shift).len() >= pal.len(),
    decreases end - n,
{
    if n < end {
        let key = prefix + decimal(n as nat);
        if vars.contains_key(key) {
            law_set_slot(pal, n - shift, vars[key]@);
            lemma_slots_len(set_slot(pal, n - shift, vars[key]@), vars, prefix, n + 1, end, shift);
        } else {
            lemma_slots_len(pal, vars, prefix, n + 1, end, shift);
        }
    }
}

proof fn lemma_slots_hit(
    pal: Seq<Seq<char>>,
    vars: Map<Seq<char>, String>,
    prefix: Seq<char>,
    n: int,
    end: int,
    shift: int,
    m: nat,
)
    requires
        pal.len() > 0,
        0 <= shift <= n <= m < end,
        vars.contains_key(prefix + decimal(m)),
    ensures
        apply_slots(pal, vars, prefix, n, end, shift).len() > m - shift,
        apply_slots(pal, vars, prefix, n, end, shift)[m - shift] == vars[prefix + decimal(m)]@,
    decreases end - n,
{
    let key = prefix + decimal(n as nat);
    if n < m {
        if vars.contains_key(key) {
            law_set_slot(pal, n - shift, vars[key]@);
            lemma_slots_hit(set_slot(pal, n - shift, vars[key]@), vars, prefix, n + 1, end, shift, m);
        } else {
            lemma_slots_hit(pal, vars, prefix, n + 1, end, shift, m);
        }
    } else {
        let p2 = set_slot(pal, n - shift, vars[key]@);
        law_set_slot(pal, n - shift, vars[key]@);
        lemma_slots_keep(p2, vars, prefix, n + 1, end, shift, m - shift);
    }
}

/// Palette slot variables: `pie{n}` (1-based) sets slot `n - 1`, `git{n}`
/// and `cScale{n}` set slot `n`. They apply in that order, so the
/// categorical scale wins over a gitGraph lane, which wins over a pie slice.
pub proof fn law_palette_slot_variables(t: ThemeV, vars: Map<Seq<char>, String>, n: nat)
    requires
        t.pie_palette.len() > 0,
    ensures
        1 <= n <= 12 && vars.contains_key("pie"@ + decimal(n)) && slot_keys_absent(vars, "git"@, 0, 8)
            && slot_keys_absent(vars, "cScale"@, 0, 12) ==> theme_vars_spec(t, vars).pie_palette[n - 1]
            == vars["pie"@ + decimal(n)]@,
        n < 8 && vars.contains_key("git"@ + decimal(n)) && slot_keys_absent(vars, "cScale"@, 0, 12)
            ==> theme_vars_spec(t, vars).pie_palette[n as int] == vars["git"@ + decimal(n)]@,
        n < 12 && vars.contains_key("cScale"@ + decimal(n)) ==> theme_vars_spec(t, vars).pie_palette[n as int]
            == vars["cScale"@ + decimal(n)]@,
{
    let t1 = sequence_vars(general_vars(t, vars), vars);
    assert(t1.pie_palette == t.pie_palette);
    let p1 = apply_slots(t1.pie_palette, vars, "pie"@, 1, 13, 1);
    lemma_slots_len(t1.pie_palette, vars, "pie"@, 1, 13, 1);
    let p2 = apply_slots(p1, vars, "git"@, 0, 8, 0);
    lemma_slots_len(p1, vars, "git"@, 0, 8, 0);
    if 1 <= n <= 12 && vars.contains_key("pie"@ + decimal(n)) && slot_keys_absent(vars, "git"@, 0, 8)
        && slot_keys_absent(vars, "cScale"@, 0, 12) {
        lemma_slots_hit(t1.pie_palette, vars, "pie"@, 1, 13, 1, n);
        lemma_slots_absent_identity(p1, vars, "git"@, 0, 8, 0);
        lemma_slots_absent_identity(p2, vars, "cScale"@, 0, 12, 0);
    }
    if n < 8 && vars.contains_key("git"@ + decimal(n)) && slot_keys_absent(vars, "cScale"@, 0, 12) {
        lemma_slots_hit(p1, vars, "git"@, 0, 8, 0, n);
        lemma_slots_absent_identity(p2, vars, "cScale"@, 0, 12, 0);
    }
    if n < 12 && vars.contains_key("cScale"@ + decimal(n)) {
        lemma_slots_hit(p2, vars, "cScale"@, 0, 12, 0, n);
    }
}

} // verus!
