use webserver::{StringMap, TemplateEngine};

fn variables(pairs: &[(&str, &str)]) -> StringMap {
    let mut map = StringMap::new();
    for (k, v) in pairs {
        map.insert(k.to_string(), v.to_string());
    }
    map
}

fn engine_outcome(template: &str, vars: &StringMap) -> Result<String, String> {
    let mut engine = tera::Tera::default();
    engine.add_raw_template("template", template).map_err(|e| e.to_string())?;
    engine.render("template", &TemplateEngine::context_of(vars)).map_err(|e| e.to_string())
}

fn render(template: &str, vars: &StringMap) -> String {
    TemplateEngine::render_outcome(template, engine_outcome(template, vars))
}

#[test]
fn context_holds_the_variables() {
    let context = TemplateEngine::context_of(&variables(&[("name", "World"), ("n", "1"), ("name", "Moon")]));
    assert_eq!(context.get("name"), Some(&tera::Value::String("Moon".to_string())));
    assert_eq!(context.get("n"), Some(&tera::Value::String("1".to_string())));
    assert_eq!(context.get("World"), None);
    assert!(!context.contains_key("other"));
    assert_eq!(TemplateEngine::context_of(&StringMap::new()), tera::Context::new());
}

#[test]
fn render_fills_in_the_variables() {
    let vars = variables(&[("name", "World"), ("greeting", "Hello")]);
    assert_eq!(render("{{ greeting }}, {{ name }}!", &vars), "Hello, World!");
    assert_eq!(render("plain text", &vars), "plain text");
    assert_eq!(render("", &vars), "");
}

#[test]
fn render_takes_the_last_value_of_a_variable() {
    let vars = variables(&[("a", "1"), ("b", "2"), ("a", "3")]);
    assert_eq!(render("{{a}}{{b}}", &vars), "32");
}

#[test]
fn render_does_not_escape_values() {
    let vars = variables(&[("html", "<b>&</b>")]);
    assert_eq!(render("{{ html }}", &vars), "<b>&</b>");
}

#[test]
fn render_passes_the_template_through_without_output() {
    let vars = variables(&[("name", "World")]);
    assert_eq!(render("Hello {{ missing }}", &vars), "Hello {{ missing }}");
    assert_eq!(render("{{ name }} {% if %}", &vars), "{{ name }} {% if %}");
    assert_eq!(render("{{", &StringMap::new()), "{{");
}

#[test]
fn render_outcome_prefers_the_engine() {
    assert_eq!(TemplateEngine::render_outcome("t {{ x }}", Ok("out".to_string())), "out");
    assert_eq!(TemplateEngine::render_outcome("t {{ x }}", Ok(String::new())), "");
    assert_eq!(TemplateEngine::render_outcome("t {{ x }}", Err("why".to_string())), "t {{ x }}");
}

#[test]
fn template_path_is_under_templates() {
    assert_eq!(TemplateEngine::template_path("index.html"), "templates/index.html");
    assert_eq!(TemplateEngine::template_path(""), "templates/");
}

#[test]
fn render_template_without_file_is_not_found() {
    assert_eq!(TemplateEngine::render_template_outcome(None), Err("Template file not found".to_string()));
}

#[test]
fn render_template_gives_the_outcome_of_the_engine() {
    let vars = variables(&[("name", "World")]);
    assert_eq!(
        TemplateEngine::render_template_outcome(Some(engine_outcome("<p>{{ name }}</p>", &vars))),
        Ok("<p>World</p>".to_string())
    );
    assert_eq!(TemplateEngine::render_template_outcome(Some(Ok(String::new()))), Ok(String::new()));
    assert_eq!(TemplateEngine::render_template_outcome(Some(Err("why".to_string()))), Err("why".to_string()));
    let failed = TemplateEngine::render_template_outcome(Some(engine_outcome("{{ missing }}", &vars)));
    assert!(matches!(&failed, Err(message) if !message.is_empty() && message != "Template file not found"));
}
