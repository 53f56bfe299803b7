use norgolith::shortcode::{find_islands, process, splice_islands};

#[test]
fn no_markers_passthrough() {
    let html = "<p>Hello world</p>";
    let tera = tera::Tera::default();
    let ctx = tera::Context::new();
    assert_eq!(process(html, &tera, &ctx), html);
}

#[test]
fn empty_markers() {
    let html = "<p>before</p><!--lith:embed--><!--/lith:embed--><p>after</p>";
    let tera = tera::Tera::default();
    let ctx = tera::Context::new();
    assert_eq!(process(html, &tera, &ctx), "<p>before</p><p>after</p>");
}

#[test]
fn island_passthrough_no_component() {
    let html = "<p>before</p><!--lith:embed--><b>bold</b><!--/lith:embed--><p>after</p>";
    let tera = tera::Tera::default();
    let ctx = tera::Context::new();
    assert_eq!(process(html, &tera, &ctx), "<p>before</p><b>bold</b><p>after</p>");
}

#[test]
fn unclosed_marker_passthrough() {
    let html = "<p>before</p><!--lith:embed--><b>unclosed</b><p>after</p>";
    let tera = tera::Tera::default();
    let ctx = tera::Context::new();
    assert_eq!(
        process(html, &tera, &ctx),
        "<p>before</p><!--lith:embed--><b>unclosed</b><p>after</p>"
    );
}

#[test]
fn multiple_islands() {
    let html = "<!--lith:embed--><b>one</b><!--/lith:embed--><p>middle</p><!--lith:embed--><i>two</i><!--/lith:embed-->";
    let tera = tera::Tera::default();
    let ctx = tera::Context::new();
    assert_eq!(process(html, &tera, &ctx), "<b>one</b><p>middle</p><i>two</i>");
}

#[test]
fn component_renders_inside_island() {
    let mut tera = tera::Tera::default();
    tera.add_raw_template(
        "shortcodes/greet.html",
        "{% component greet(name: String) %}<span>Hello {{ name }}!</span>{% endcomponent greet %}",
    )
    .unwrap();
    let mut ctx = tera::Context::new();
    ctx.insert("name", &"World");
    let html = "<p>before</p><!--lith:embed-->{{ <greet name=\"World\" /> }}<!--/lith:embed--><p>after</p>";
    assert_eq!(process(html, &tera, &ctx), "<p>before</p><span>Hello World!</span><p>after</p>");
}

#[test]
fn component_with_kwargs_from_context() {
    let mut tera = tera::Tera::default();
    tera.add_raw_template(
        "shortcodes/alert.html",
        "{% component alert(msg: String, level=\"info\") %}<div class=\"{{ level }}\">{{ msg }}</div>{% endcomponent alert %}",
    )
    .unwrap();
    let mut ctx = tera::Context::new();
    ctx.insert("msg", &"Something happened");
    let html = "<!--lith:embed-->{{ <alert msg=\"Something happened\" level=\"warning\" /> }}<!--/lith:embed-->";
    assert_eq!(process(html, &tera, &ctx), "<div class=\"warning\">Something happened</div>");
}

#[test]
fn component_with_body() {
    let mut tera = tera::Tera::default();
    tera.add_raw_template(
        "shortcodes/callout.html",
        "{% component callout(type: String) %}<aside class=\"{{ type }}\">{{ body }}</aside>{% endcomponent callout %}",
    )
    .unwrap();
    let ctx = tera::Context::new();
    let html = "<!--lith:embed-->{% <callout type=\"warning\"> %}Be careful!{% </callout> %}<!--/lith:embed-->";
    assert_eq!(process(html, &tera, &ctx), "<aside class=\"warning\">Be careful!</aside>");
}

#[test]
fn failed_render_keeps_island() {
    let tera = tera::Tera::default();
    let ctx = tera::Context::new();
    let html = "<!--lith:embed-->{{ <missing /> }}<!--/lith:embed-->";
    assert_eq!(process(html, &tera, &ctx), "{{ <missing /> }}");
}

#[test]
fn islands_are_found_and_spliced() {
    let html = "a<!--lith:embed-->{{ <x /> }}<!--/lith:embed-->b<!--lith:embed-->Y<!--/lith:embed-->c";
    assert_eq!(find_islands(html), vec!["{{ <x /> }}".to_string(), "Y".to_string()]);
    assert_eq!(splice_islands(html, &vec![Some("1".to_string()), None]), "a1bYc");
    assert_eq!(splice_islands(html, &vec![None, None]), "a{{ <x /> }}bYc");
    // an island without a component call is kept whatever was rendered
    assert_eq!(splice_islands(html, &vec![Some("1".to_string()), Some("2".to_string())]), "a1bYc");
}
