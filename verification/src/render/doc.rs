//! Escaping for HTML text and for Typst markup and string literals, and
//! theme colour lookup.
use vstd::prelude::*;
use vstd::string::StringExecFns;
use crate::text::{chars_of, flat_map_chars, lemma_flat_map_push, push_char, push_str};

verus! {

/// Characters that are significant in Typst markup and so get a backslash.
pub open spec fn markup_special(c: char) -> bool {
    c == '\\' || c == '#' || c == '$' || c == '*' || c == '_' || c == '`' || c == '<' || c == '>'
        || c == '@' || c == '=' || c == '~' || c == '"' || c == '\'' || c == '[' || c == ']'
}

/// How `esc_markup` writes one character.
pub open spec fn markup_escape_char(c: char) -> Seq<char> {
    if markup_special(c) {
        seq!['\\', c]
    } else {
        seq![c]
    }
}

/// `s` escaped for Typst markup: every markup-significant character is
/// preceded by a backslash, everything else is copied.
pub open spec fn markup_escaped(s: Seq<char>) -> Seq<char> {
    flat_map_chars(s, |c: char| markup_escape_char(c))
}

/// How `esc_str` writes one character.
pub open spec fn str_escape_char(c: char) -> Seq<char> {
    if c == '\\' {
        seq!['\\', '\\']
    } else if c == '"' {
        seq!['\\', '"']
    } else {
        seq![c]
    }
}

/// `s` escaped for a Typst double-quoted string literal: backslashes are
/// doubled and double quotes get a backslash.
pub open spec fn str_escaped(s: Seq<char>) -> Seq<char> {
    flat_map_chars(s, |c: char| str_escape_char(c))
}

fn is_markup_special(c: char) -> (b: bool)
    ensures
        b == markup_special(c),
{
    c == '\\' || c == '#' || c == '$' || c == '*' || c == '_' || c == '`' || c == '<' || c == '>'
        || c == '@' || c == '=' || c == '~' || c == '"' || c == '\'' || c == '[' || c == ']'
}

/// Escape arbitrary text for Typst *markup* (content mode). Backslash and the
/// markup-significant characters are escaped so titles/locations/descriptions
/// render verbatim.
pub fn esc_markup(s: &str) -> (out: String)
    ensures
        out@ == markup_escaped(s@),
{
    let v = chars_of(s);
    let mut out = String::new();
    let mut i: usize = 0;
    while i < v.len()
        invariant
            v@ == s@,
            i <= v@.len(),
            out@ == markup_escaped(v@.take(i as int)),
        decreases v@.len() - i,
    {
        let c = v[i];
        proof {
            lemma_flat_map_push(v@, i as int, |c: char| markup_escape_char(c));
        }
        if is_markup_special(c) {
            push_char(&mut out, '\\');
        }
        push_char(&mut out, c);
        i = i + 1;
    }
    assert(v@.take(v@.len() as int) == v@);
    out
}

/// Escape a string for a Typst double-quoted string literal (label names, etc.).
pub fn esc_str(s: &str) -> (out: String)
    ensures
        out@ == str_escaped(s@),
{
    let v = chars_of(s);
    let mut out = String::new();
    let mut i: usize = 0;
    while i < v.len()
        invariant
            v@ == s@,
            i <= v@.len(),
            out@ == str_escaped(v@.take(i as int)),
        decreases v@.len() - i,
    {
        let c = v[i];
        proof {
            lemma_flat_map_push(v@, i as int, |c: char| str_escape_char(c));
        }
        if c == '\\' || c == '"' {
            push_char(&mut out, '\\');
        }
        push_char(&mut out, c);
        i = i + 1;
    }
    assert(v@.take(v@.len() as int) == v@);
    out
}

/// How `esc_html` writes one character: the five HTML-significant
/// characters as entities, anything else as is.
pub open spec fn html_escape_char(c: char) -> Seq<char> {
    if c == '&' {
        "&amp;"@
    } else if c == '<' {
        "&lt;"@
    } else if c == '>' {
        "&gt;"@
    } else if c == '"' {
        "&quot;"@
    } else if c == '\'' {
        "&#39;"@
    } else {
        seq![c]
    }
}

/// `s` escaped for HTML text and attribute values.
pub open spec fn html_escaped(s: Seq<char>) -> Seq<char> {
    flat_map_chars(s, |c: char| html_escape_char(c))
}

/// Escape text for HTML (element content or a double-quoted attribute), so
/// titles, locations and descriptions render verbatim.
pub fn esc_html(s: &str) -> (out: String)
    ensures
        out@ == html_escaped(s@),
{
    let v = chars_of(s);
    let mut out = String::new();
    let mut i: usize = 0;
    proof {
        reveal_strlit("&amp;");
        reveal_strlit("&lt;");
        reveal_strlit("&gt;");
        reveal_strlit("&quot;");
        reveal_strlit("&#39;");
    }
    while i < v.len()
        invariant
            v@ == s@,
            i <= v@.len(),
            out@ == html_escaped(v@.take(i as int)),
        decreases v@.len() - i,
    {
        let c = v[i];
        proof {
            lemma_flat_map_push(v@, i as int, |c: char| html_escape_char(c));
        }
        if c == '&' {
            push_str(&mut out, "&amp;");
        } else if c == '<' {
            push_str(&mut out, "&lt;");
        } else if c == '>' {
            push_str(&mut out, "&gt;");
        } else if c == '"' {
            push_str(&mut out, "&quot;");
        } else if c == '\'' {
            push_str(&mut out, "&#39;");
        } else {
            push_char(&mut out, c);
        }
        i = i + 1;
    }
    assert(v@.take(v@.len() as int) == v@);
    out
}

/// A theme palette: colour name → colour value, in theme order.
#[derive(Debug, Clone)]
pub struct Palette {
    pub entries: Vec<(String, String)>,
}

/// The value the palette gives `key`: that of the first entry named `key`.
pub open spec fn palette_get(entries: Seq<(String, String)>, key: Seq<char>) -> Option<Seq<char>>
    decreases entries.len(),
{
    if entries.len() == 0 {
        None
    } else if entries[0].0@ == key {
        Some(entries[0].1@)
    } else {
        palette_get(entries.drop_first(), key)
    }
}

fn str_eq(a: &str, b: &str) -> (r: bool)
    ensures
        r == (a@ == b@),
{
    let x = chars_of(a);
    let y = chars_of(b);
    if x.len() != y.len() {
        return false;
    }
    let mut i: usize = 0;
    while i < x.len()
        invariant
            x@ == a@,
            y@ == b@,
            x@.len() == y@.len(),
            i <= x@.len(),
            forall|k: int| 0 <= k < i ==> x@[k] == y@[k],
        decreases x@.len() - i,
    {
        if x[i] != y[i] {
            return false;
        }
        i = i + 1;
    }
    assert(x@ == y@);
    true
}

impl Palette {
    /// Index of the entry that `palette_get` reads for `key`.
    fn find(&self, key: &str) -> (r: Option<usize>)
        ensures
            match r {
                Some(i) => i < self.entries@.len() && palette_get(self.entries@, key@) == Some(
                    self.entries@[i as int].1@,
                ),
                None => palette_get(self.entries@, key@) is None,
            },
    {
        let mut i: usize = 0;
        assert(self.entries@.skip(0) == self.entries@);
        while i < self.entries.len()
            invariant
                i <= self.entries@.len(),
                palette_get(self.entries@, key@) == palette_get(self.entries@.skip(i as int), key@),
            decreases self.entries@.len() - i,
        {
            assert(self.entries@.skip(i as int)[0] == self.entries@[i as int]);
            if str_eq(self.entries[i].0.as_str(), key) {
                return Some(i);
            }
            assert(self.entries@.skip(i as int).drop_first() == self.entries@.skip(i + 1));
            i = i + 1;
        }
        None
    }

    /// The colour named `key`, if the palette has one.
    pub fn get(&self, key: &str) -> (r: Option<&String>)
        ensures
            match r {
                Some(v) => palette_get(self.entries@, key@) == Some(v@),
                None => palette_get(self.entries@, key@) is None,
            },
    {
        match self.find(key) {
            Some(i) => Some(&self.entries[i].1),
            None => None,
        }
    }
}

/// The theme colour `key` as a hex string, or `fallback` when the theme has none.
pub fn hex(theme: &Palette, key: &str, fallback: &str) -> (r: String)
    ensures
        r@ == match palette_get(theme.entries@, key@) {
            Some(v) => v,
            None => fallback@,
        },
{
    match theme.get(key) {
        Some(v) => v.clone(),
        None => String::from_str(fallback),
    }
}

/// The theme colour `key`, or `fallback` when the theme has none.
pub fn color<'a>(theme: &'a Palette, key: &str, fallback: &'a str) -> (r: &'a str)
    ensures
        r@ == match palette_get(theme.entries@, key@) {
            Some(v) => v,
            None => fallback@,
        },
{
    match theme.get(key) {
        Some(v) => v.as_str(),
        None => fallback,
    }
}

/// One entry of the theme's colour dictionary: `"name": rgb("value"), `.
pub open spec fn theme_entry(k: Seq<char>, v: Seq<char>) -> Seq<char> {
    "\""@ + str_escaped(k) + "\": rgb(\""@ + str_escaped(v) + "\"), "@
}

/// The entries of the colour dictionary, in palette order.
pub open spec fn theme_entries(entries: Seq<(String, String)>) -> Seq<char>
    decreases entries.len(),
{
    if entries.len() == 0 {
        Seq::empty()
    } else {
        theme_entries(entries.drop_last()) + theme_entry(entries.last().0@, entries.last().1@)
    }
}

/// The theme's colour `key`, or `fallback` when it has none.
pub open spec fn hex_or(entries: Seq<(String, String)>, key: Seq<char>, fallback: Seq<char>) -> Seq<char> {
    match palette_get(entries, key) {
        Some(v) => v,
        None => fallback,
    }
}

/// A named colour binding: `#let name = rgb("value")`.
pub open spec fn color_binding(name: Seq<char>, value: Seq<char>) -> Seq<char> {
    "#let "@ + name + " = rgb(\""@ + value + "\")\n"@
}

/// The colour part of the preamble: the theme's colour dictionary (swatch
/// lookup by name), then the named colours, each the theme's value or the
/// library default.
pub open spec fn theme_bindings_spec(entries: Seq<(String, String)>) -> Seq<char> {
    "#let theme-col = ("@ + theme_entries(entries) + ")\n"@
        + color_binding("paper"@, hex_or(entries, "paper"@, "#F3F1EA"@))
        + color_binding("ink"@, hex_or(entries, "ink"@, "#1A1A18"@))
        + color_binding("primary"@, hex_or(entries, "primary"@, "#2A2F6B"@))
        + color_binding("accent"@, hex_or(entries, "accent"@, "#CF3A2B"@))
        + color_binding("muted"@, hex_or(entries, "muted"@, "#5E6166"@))
        + color_binding("rule-col"@, hex_or(entries, "rule"@, "#E0DDD2"@))
        + color_binding("nav"@, hex_or(entries, "nav"@, "#F4F1E8"@))
        + color_binding("dotcol"@, hex_or(entries, "dot"@, "#55534C"@))
        + color_binding("cover-to"@, hex_or(entries, "cover_to"@, "#1A1E48"@))
}

fn push_binding(out: &mut String, theme: &Palette, name: &str, key: &str, fallback: &str)
    ensures
        final(out)@ == old(out)@ + color_binding(name@, hex_or(theme.entries@, key@, fallback@)),
{
    push_str(out, "#let ");
    push_str(out, name);
    push_str(out, " = rgb(\"");
    let v = hex(theme, key, fallback);
    push_str(out, v.as_str());
    push_str(out, "\")\n");
}

/// The colour bindings of the Typst preamble for `theme`.
pub fn theme_bindings(theme: &Palette) -> (r: String)
    ensures
        r@ == theme_bindings_spec(theme.entries@),
{
    let mut out = String::new();
    push_str(&mut out, "#let theme-col = (");
    let ghost start = out@;
    let mut i: usize = 0;
    while i < theme.entries.len()
        invariant
            i <= theme.entries@.len(),
            out@ == start + theme_entries(theme.entries@.take(i as int)),
        decreases theme.entries@.len() - i,
    {
        let (k, v) = (&theme.entries[i].0, &theme.entries[i].1);
        push_str(&mut out, "\"");
        let ek = esc_str(k.as_str());
        push_str(&mut out, ek.as_str());
        push_str(&mut out, "\": rgb(\"");
        let ev = esc_str(v.as_str());
        push_str(&mut out, ev.as_str());
        push_str(&mut out, "\"), ");
        assert(theme.entries@.take(i + 1).drop_last() == theme.entries@.take(i as int));
        assert(theme.entries@.take(i + 1).last() == theme.entries@[i as int]);
        i = i + 1;
    }
    assert(theme.entries@.take(i as int) == theme.entries@);
    push_str(&mut out, ")\n");
    push_binding(&mut out, theme, "paper", "paper", "#F3F1EA");
    push_binding(&mut out, theme, "ink", "ink", "#1A1A18");
    push_binding(&mut out, theme, "primary", "primary", "#2A2F6B");
    push_binding(&mut out, theme, "accent", "accent", "#CF3A2B");
    push_binding(&mut out, theme, "muted", "muted", "#5E6166");
    push_binding(&mut out, theme, "rule-col", "rule", "#E0DDD2");
    push_binding(&mut out, theme, "nav", "nav", "#F4F1E8");
    push_binding(&mut out, theme, "dotcol", "dot", "#55534C");
    push_binding(&mut out, theme, "cover-to", "cover_to", "#1A1E48");
    out
}

} // verus!
