//! What the renderer is asked to produce for the selected elements, and the
//! escaping rule of its HTML output.
use crate::text::{chars_of, string_of};
use vstd::prelude::*;

verus! {

/// The rendering modes: plain HTML by default, with colors, text only, the
/// values of chosen attributes, or a JSON document.
#[derive(Clone)]
pub struct SerializeSettings {
    pub is_color_enabled: bool,
    pub should_render_text_only: bool,
    pub should_render_attributes: bool,
    pub attributes: Vec<String>,
    pub is_json_enabled: bool,
}

/// The mathematical value of `SerializeSettings`.
pub struct Settings {
    pub is_color_enabled: bool,
    pub should_render_text_only: bool,
    pub should_render_attributes: bool,
    pub attributes: Seq<Seq<char>>,
    pub is_json_enabled: bool,
}

pub open spec fn strings_view(v: Seq<String>) -> Seq<Seq<char>> {
    v.map_values(|s: String| s@)
}

impl View for SerializeSettings {
    type V = Settings;

    open spec fn view(&self) -> Settings {
        Settings {
            is_color_enabled: self.is_color_enabled,
            should_render_text_only: self.should_render_text_only,
            should_render_attributes: self.should_render_attributes,
            attributes: strings_view(self.attributes@),
            is_json_enabled: self.is_json_enabled,
        }
    }
}

/// Plain HTML, no color, no attribute chosen.
pub open spec fn default_settings() -> Settings {
    Settings {
        is_color_enabled: false,
        should_render_text_only: false,
        should_render_attributes: false,
        attributes: Seq::empty(),
        is_json_enabled: false,
    }
}

impl Default for SerializeSettings {
    fn default() -> (r: Self)
        ensures
            r@ == default_settings(),
    {
        let r = SerializeSettings {
            is_color_enabled: false,
            should_render_text_only: false,
            should_render_attributes: false,
            attributes: Vec::new(),
            is_json_enabled: false,
        };
        assert(r@.attributes =~= Seq::<Seq<char>>::empty());
        r
    }
}

/// Builds `SerializeSettings` one option at a time.
pub struct SerializeSettingsBuilder {
    serialize_settings: SerializeSettings,
}

impl View for SerializeSettingsBuilder {
    type V = Settings;

    closed spec fn view(&self) -> Settings {
        self.serialize_settings@
    }
}

impl SerializeSettingsBuilder {
    pub fn new() -> (r: Self)
        ensures
            r@ == default_settings(),
    {
        SerializeSettingsBuilder { serialize_settings: SerializeSettings::default() }
    }

    pub fn enable_color(&mut self)
        ensures
            final(self)@ == (Settings { is_color_enabled: true, ..old(self)@ }),
    {
        self.serialize_settings.is_color_enabled = true;
    }

    pub fn should_render_text_only(&mut self)
        ensures
            final(self)@ == (Settings { should_render_text_only: true, ..old(self)@ }),
    {
        self.serialize_settings.should_render_text_only = true;
    }

    pub fn should_render_attributes(&mut self, attributes: Vec<String>)
        ensures
            final(self)@ == (Settings {
                should_render_attributes: true,
                attributes: strings_view(attributes@),
                ..old(self)@
            }),
    {
        self.serialize_settings.should_render_attributes = true;
        self.serialize_settings.attributes = attributes;
    }

    pub fn render_json(&mut self)
        ensures
            final(self)@ == (Settings { is_json_enabled: true, ..old(self)@ }),
    {
        self.serialize_settings.is_json_enabled = true;
    }

    /// The settings built so far.
    pub fn build(&self) -> (r: SerializeSettings)
        ensures
            r@ == self@,
    {
        let s = &self.serialize_settings;
        let mut attributes: Vec<String> = Vec::new();
        let mut k: usize = 0;
        while k < s.attributes.len()
            invariant
                k <= s.attributes.len(),
                strings_view(attributes@) == strings_view(s.attributes@).take(k as int),
            decreases s.attributes.len() - k,
        {
            let ghost before = attributes@;
            attributes.push(s.attributes[k].clone());
            assert(strings_view(attributes@) =~= strings_view(before).push(s.attributes@[k as int]@));
            assert(strings_view(s.attributes@).take(k + 1) =~= strings_view(s.attributes@).take(
                k as int,
            ).push(s.attributes@[k as int]@));
            k = k + 1;
        }
        assert(strings_view(s.attributes@).take(k as int) =~= strings_view(s.attributes@));
        SerializeSettings {
            is_color_enabled: s.is_color_enabled,
            should_render_text_only: s.should_render_text_only,
            should_render_attributes: s.should_render_attributes,
            attributes,
            is_json_enabled: s.is_json_enabled,
        }
    }
}

// ---------------------------------------------------------------------------
// Escaping.
/// What one character becomes in HTML output: `&` and the no-break space
/// always, `"` inside an attribute value, `<` and `>` outside one.
pub open spec fn escape_char(c: char, attr_mode: bool) -> Seq<char> {
    if c == '&' {
        seq!['&', 'a', 'm', 'p', ';']
    } else if c == '\u{a0}' {
        seq!['&', 'n', 'b', 's', 'p', ';']
    } else if c == '"' && attr_mode {
        seq!['&', 'q', 'u', 'o', 't', ';']
    } else if c == '<' && !attr_mode {
        seq!['&', 'l', 't', ';']
    } else if c == '>' && !attr_mode {
        seq!['&', 'g', 't', ';']
    } else {
        seq![c]
    }
}

/// `s` with each character escaped.
pub open spec fn escaped(s: Seq<char>, attr_mode: bool) -> Seq<char>
    decreases s.len(),
{
    if s.len() == 0 {
        Seq::empty()
    } else {
        escaped(s.drop_last(), attr_mode) + escape_char(s.last(), attr_mode)
    }
}

fn push_all(out: &mut Vec<char>, s: &[char])
    ensures
        final(out)@ == old(out)@ + s@,
{
    let ghost start = out@;
    let mut k: usize = 0;
    while k < s.len()
        invariant
            k <= s.len(),
            out@ == start + s@.take(k as int),
        decreases s.len() - k,
    {
        out.push(s[k]);
        assert(s@.take(k + 1) =~= s@.take(k as int).push(s@[k as int]));
        k = k + 1;
    }
    assert(s@.take(k as int) =~= s@);
}

/// Escapes `text` for HTML output, as an attribute value if `attr_mode`.
pub fn write_escaped(text: &str, attr_mode: bool) -> (r: String)
    ensures
        r@ == escaped(text@, attr_mode),
{
    let chars = chars_of(text);
    let mut out: Vec<char> = Vec::new();
    let mut i: usize = 0;
    while i < chars.len()
        invariant
            i <= chars.len(),
            chars@ == text@,
            out@ == escaped(chars@.take(i as int), attr_mode),
        decreases chars.len() - i,
    {
        assert(chars@.take(i + 1).drop_last() =~= chars@.take(i as int));
        let c = chars[i];
        if c == '&' {
            let e = ['&', 'a', 'm', 'p', ';'];
            assert(e@ =~= escape_char(c, attr_mode));
            push_all(&mut out, &e);
        } else if c == '\u{a0}' {
            let e = ['&', 'n', 'b', 's', 'p', ';'];
            assert(e@ =~= escape_char(c, attr_mode));
            push_all(&mut out, &e);
        } else if c == '"' && attr_mode {
            let e = ['&', 'q', 'u', 'o', 't', ';'];
            assert(e@ =~= escape_char(c, attr_mode));
            push_all(&mut out, &e);
        } else if c == '<' && !attr_mode {
            let e = ['&', 'l', 't', ';'];
            assert(e@ =~= escape_char(c, attr_mode));
            push_all(&mut out, &e);
        } else if c == '>' && !attr_mode {
            let e = ['&', 'g', 't', ';'];
            assert(e@ =~= escape_char(c, attr_mode));
            push_all(&mut out, &e);
        } else {
            let ghost before = out@;
            out.push(c);
            assert(out@ =~= before + escape_char(c, attr_mode));
        }
        i = i + 1;
    }
    assert(chars@.take(i as int) =~= chars@);
    string_of(&out)
}

} // verus!
