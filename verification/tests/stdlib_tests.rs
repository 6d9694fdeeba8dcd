use liquid::assign_tag::AssignTag;
use liquid::for_block::ForBlock;
use liquid::if_block::IfBlock;
use liquid::ifchanged_block::IfChangedBlock;
use liquid::language::{BlockPlugin, Language, TagPlugin};
use liquid::parser::parse;
use liquid::template::Template;
use liquid::value::Value;
use liquid::runtime::Runtime;

fn options() -> Language {
    let mut options = Language::new();
    options
        .tags
        .register("assign".to_string(), TagPlugin::Assign(AssignTag::new()))
        .unwrap();
    options
        .blocks
        .register("ifchanged".to_string(), BlockPlugin::IfChanged(IfChangedBlock::new()))
        .unwrap();
    options
        .blocks
        .register("for".to_string(), BlockPlugin::For(ForBlock::new()))
        .unwrap();
    options
        .blocks
        .register("if".to_string(), BlockPlugin::If(IfBlock::new()))
        .unwrap();
    options
}

#[test]
fn test_ifchanged_block() {
    let text = "{% for a in (0..10) %}{% ifchanged %}\nHey! {% if a > 5 %}Numbers are now bigger than 5!{% endif %}{% endifchanged %}{% endfor %}";
    let template = parse(text, &options()).map(Template::new).unwrap();

    let mut runtime = Runtime::new();
    let output = template.render(&mut runtime).unwrap();
    assert_eq!(output, "\nHey! \nHey! Numbers are now bigger than 5!");
}

#[test]
fn assign() {
    let options = options();
    let template = parse("{% assign freestyle = false %}{{ freestyle }}", &options)
        .map(Template::new)
        .unwrap();

    let mut runtime = Runtime::new();

    let output = template.render(&mut runtime).unwrap();
    assert_eq!(output, "false");
}

#[test]
fn assign_array_indexing() {
    let text = "{% assign freestyle = tags[1] %}{{ freestyle }}";
    let options = options();
    let template = parse(text, &options).map(Template::new).unwrap();

    let mut runtime = Runtime::new();
    runtime.set_global(
        "tags".to_string(),
        Value::Array(vec![
            Value::Str("alpha".to_string()),
            Value::Str("beta".to_string()),
            Value::Str("gamma".to_string()),
        ]),
    );

    let output = template.render(&mut runtime).unwrap();
    assert_eq!(output, "beta");
}

#[test]
fn assign_object_indexing() {
    let text = r#"{% assign freestyle = tags["greek"] %}{{ freestyle }}"#;
    let options = options();
    let template = parse(text, &options).map(Template::new).unwrap();

    let mut runtime = Runtime::new();
    runtime.set_global(
        "tags".to_string(),
        Value::Object(vec![("greek".to_string(), Value::Str("alpha".to_string()))]),
    );

    let output = template.render(&mut runtime).unwrap();
    assert_eq!(output, "alpha");
}

#[test]
fn assign_in_loop_persists_on_loop_exit() {
    let text = "{% assign freestyle = false %}{% for t in tags %}{% if t == 'freestyle' %}{% assign freestyle = true %}{% endif %}{% endfor %}{% if freestyle %}<p>Freestyle!</p>{% endif %}";

    let options = options();
    let template = parse(text, &options).map(Template::new).unwrap();

    // test one: no matching value in `tags`
    {
        let mut runtime = Runtime::new();
        runtime.set_global(
            "tags".to_string(),
            Value::Array(vec![
                Value::Str("alpha".to_string()),
                Value::Str("beta".to_string()),
                Value::Str("gamma".to_string()),
            ]),
        );

        let output = template.render(&mut runtime).unwrap();
        assert_eq!(runtime.get(&"freestyle".to_string()).unwrap(), Value::Bool(false));
        assert_eq!(output, "");
    }

    // test two: matching value in `tags`
    {
        let mut runtime = Runtime::new();
        runtime.set_global(
            "tags".to_string(),
            Value::Array(vec![
                Value::Str("alpha".to_string()),
                Value::Str("beta".to_string()),
                Value::Str("freestyle".to_string()),
                Value::Str("gamma".to_string()),
            ]),
        );

        let output = template.render(&mut runtime).unwrap();
        assert_eq!(runtime.get(&"freestyle".to_string()).unwrap(), Value::Bool(true));
        assert_eq!(output, "<p>Freestyle!</p>");
    }
}
