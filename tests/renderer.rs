use rup::renderer::{write_escaped, SerializeSettings, SerializeSettingsBuilder};

#[test]
fn escapes_text() {
    assert_eq!(write_escaped("a & b < c > \"d\"\u{a0}", false), "a &amp; b &lt; c &gt; \"d\"&nbsp;");
    assert_eq!(write_escaped("", false), "");
}

#[test]
fn escapes_attribute_values() {
    assert_eq!(write_escaped("a & b < c > \"d\"", true), "a &amp; b < c > &quot;d&quot;");
}

#[test]
fn builder_starts_from_plain_html() {
    let s = SerializeSettingsBuilder::new().build();
    assert!(!s.is_color_enabled);
    assert!(!s.should_render_text_only);
    assert!(!s.should_render_attributes);
    assert!(s.attributes.is_empty());
    assert!(!s.is_json_enabled);
    let d = SerializeSettings::default();
    assert!(!d.is_color_enabled && !d.is_json_enabled && d.attributes.is_empty());
}

#[test]
fn builder_sets_each_option() {
    let mut b = SerializeSettingsBuilder::new();
    b.enable_color();
    b.should_render_text_only();
    b.render_json();
    b.should_render_attributes(vec!["class".to_string(), "data-value".to_string()]);
    let s = b.build();
    assert!(s.is_color_enabled);
    assert!(s.should_render_text_only);
    assert!(s.should_render_attributes);
    assert!(s.is_json_enabled);
    assert_eq!(s.attributes, vec!["class".to_string(), "data-value".to_string()]);
}
