use liquid::assign_tag::AssignTag;
use liquid::error::ErrorKind;
use liquid::expression::{Expression, PathSeg};
use liquid::filter_chain::FilterChain;
use liquid::filters::{AppendFilter, FilterPlugin, SizeFilter};
use liquid::for_block::ForBlock;
use liquid::if_block::IfBlock;
use liquid::ifchanged_block::IfChangedBlock;
use liquid::interrupt_tags::{BreakTag, ContinueTag};
use liquid::language::{BlockPlugin, Language, TagPlugin};
use liquid::parser::parse;
use liquid::runtime::{Runtime, State};
use liquid::template::Template;
use liquid::value::Value;

fn full_options() -> Language {
    let mut options = Language::new();
    options
        .tags
        .register("assign".to_string(), TagPlugin::Assign(AssignTag::new()))
        .unwrap();
    options
        .tags
        .register("break".to_string(), TagPlugin::Break(BreakTag::new()))
        .unwrap();
    options
        .tags
        .register("continue".to_string(), TagPlugin::Continue(ContinueTag::new()))
        .unwrap();
    options
        .blocks
        .register("ifchanged".to_string(), BlockPlugin::IfChanged(IfChangedBlock::new()))
        .unwrap();
    options
        .blocks
        .register("for".to_string(), BlockPlugin::For(ForBlock::new()))
        .unwrap();
    options
        .blocks
        .register("if".to_string(), BlockPlugin::If(IfBlock::new()))
        .unwrap();
    options
        .filters
        .register("size".to_string(), FilterPlugin::Size(SizeFilter))
        .unwrap();
    options
        .filters
        .register("append".to_string(), FilterPlugin::Append(AppendFilter))
        .unwrap();
    options
}

fn render_with_tags(text: &str) -> String {
    let options = full_options();
    let template = parse(text, &options).map(Template::new).unwrap();
    let mut runtime = Runtime::new();
    runtime.set_global(
        "tags".to_string(),
        Value::Array(vec![
            Value::Str("alpha".to_string()),
            Value::Str("beta".to_string()),
            Value::Str("gamma".to_string()),
        ]),
    );
    template.render(&mut runtime).unwrap()
}

#[test]
fn zero_filters_is_identity() {
    assert_eq!(render_with_tags("{{ tags[0] }}"), "alpha");
    assert_eq!(render_with_tags("{{ 5 }}"), "5");
}

#[test]
fn size_filter_counts() {
    assert_eq!(render_with_tags("{{ tags | size }}"), "3");
    assert_eq!(render_with_tags("{{ tags[0] | size }}"), "5");
    assert_eq!(render_with_tags("{{ 7 | size }}"), "0");
}

#[test]
fn append_filter_joins() {
    assert_eq!(render_with_tags(r#"{{ tags[0] | append: "!" }}"#), "alpha!");
    assert_eq!(
        render_with_tags(r#"{{ tags[1] | append: "-" | append: tags[2] }}"#),
        "beta-gamma"
    );
}

#[test]
fn break_stops_remaining_siblings() {
    assert_eq!(
        render_with_tags("{% for t in tags %}{{ t }}{% break %}x{% endfor %}"),
        "alpha"
    );
}

#[test]
fn break_inside_if_stops_loop() {
    assert_eq!(
        render_with_tags(
            "{% for t in tags %}{% if t == 'beta' %}{% break %}{% endif %}{{ t }}{% endfor %}"
        ),
        "alpha"
    );
}

#[test]
fn continue_skips_one_item() {
    assert_eq!(
        render_with_tags(
            "{% for t in tags %}{% if t == 'beta' %}{% continue %}{% endif %}{{ t }}{% endfor %}"
        ),
        "alphagamma"
    );
}

#[test]
fn global_write_reaches_through_nesting() {
    assert_eq!(
        render_with_tags(
            "{% for t in tags %}{% if t == 'beta' %}{% assign x = t %}{% endif %}{% endfor %}{{ x }}"
        ),
        "beta"
    );
}

#[test]
fn negative_index_counts_from_end() {
    assert_eq!(render_with_tags("{{ tags[-1] }}"), "gamma");
    assert_eq!(render_with_tags("{{ tags[-3] }}"), "alpha");
    assert_eq!(render_with_tags("{{ tags[-4] }}"), "");
}

#[test]
fn missing_data_renders_nothing() {
    assert_eq!(render_with_tags("{{ absent }}"), "");
    assert_eq!(render_with_tags("{{ tags[9] }}"), "");
    assert_eq!(render_with_tags("{{ tags[0].further }}"), "");
}

#[test]
fn negative_integers_render_with_sign() {
    assert_eq!(render_with_tags("{% assign x = -7 %}{{ x }}"), "-7");
    assert_eq!(render_with_tags("{{ 42 }}"), "42");
}

#[test]
fn unknown_tag_is_a_parse_error() {
    let options = full_options();
    let err = parse("{% bogus %}", &options).unwrap_err();
    assert_eq!(err.kind, ErrorKind::Parse);
    assert!(err.msg.contains("bogus"));
}

#[test]
fn unknown_block_is_a_parse_error() {
    let options = full_options();
    let err = parse("{% verse %}la{% endverse %}", &options).unwrap_err();
    assert_eq!(err.kind, ErrorKind::Parse);
}

#[test]
fn trailing_tokens_are_a_parse_error() {
    let options = full_options();
    let err = parse("{% assign x = 1 2 %}", &options).unwrap_err();
    assert_eq!(err.kind, ErrorKind::Parse);
    assert_eq!(err.msg, "Unexpected token: 2");
}

#[test]
fn assign_without_identifier_is_a_parse_error() {
    let options = full_options();
    let err = parse("{% assign %}", &options).unwrap_err();
    assert_eq!(err.kind, ErrorKind::Parse);
    assert_eq!(err.msg, "Identifier expected.");
}

#[test]
fn assign_without_operator_is_a_parse_error() {
    let options = full_options();
    let err = parse("{% assign x 1 %}", &options).unwrap_err();
    assert_eq!(err.kind, ErrorKind::Parse);
    assert_eq!(err.msg, "Assignment operator \"=\" expected.");
}

#[test]
fn missing_closing_tag_is_a_parse_error() {
    let options = full_options();
    let err = parse("{% if x %}y", &options).unwrap_err();
    assert_eq!(err.kind, ErrorKind::Parse);
}

#[test]
fn unknown_filter_is_a_parse_error() {
    let options = full_options();
    let err = parse("{{ x | frobnicate }}", &options).unwrap_err();
    assert_eq!(err.kind, ErrorKind::Parse);
}

#[test]
fn filter_arity_is_an_evaluation_error() {
    let options = full_options();
    let template = parse("{{ tags | size: 3 }}", &options).map(Template::new).unwrap();
    let mut runtime = Runtime::new();
    let err = template.render(&mut runtime).unwrap_err();
    assert_eq!(err.kind, ErrorKind::Evaluation);
    assert_eq!(err.msg, "Filter error");
    assert_eq!(err.trace.len(), 2);
    assert_eq!(err.trace[0], "filter: size: 3");
    assert_eq!(err.trace[1], "input: ");
}

#[test]
fn ordering_non_integers_is_an_evaluation_error() {
    let options = full_options();
    let template = parse("{% if tags > 1 %}x{% endif %}", &options).map(Template::new).unwrap();
    let mut runtime = Runtime::new();
    runtime.set_global(
        "tags".to_string(),
        Value::Array(vec![Value::Str("alpha".to_string())]),
    );
    let err = template.render(&mut runtime).unwrap_err();
    assert_eq!(err.kind, ErrorKind::Evaluation);
}

#[test]
fn sibling_ifchanged_blocks_do_not_share_state() {
    assert_eq!(
        render_with_tags(
            "{% ifchanged %}a{% endifchanged %}{% ifchanged %}a{% endifchanged %}"
        ),
        "aa"
    );
}

#[test]
fn ifchanged_state_persists_across_iterations() {
    assert_eq!(
        render_with_tags("{% for t in (1..4) %}{% ifchanged %}once{% endifchanged %}{% endfor %}"),
        "once"
    );
}

#[test]
fn fresh_runtime_resets_ifchanged_state() {
    let options = full_options();
    let template = parse("{% ifchanged %}x{% endifchanged %}", &options)
        .map(Template::new)
        .unwrap();
    let mut first = Runtime::new();
    assert_eq!(template.render(&mut first).unwrap(), "x");
    let mut second = Runtime::new();
    assert_eq!(template.render(&mut second).unwrap(), "x");
}

#[test]
fn state_remembers_the_last_rendered_text() {
    let mut state = State::new();
    assert!(state.has_changed("one"));
    assert!(!state.has_changed("one"));
    assert!(state.has_changed("two"));
    assert!(state.has_changed("one"));
}

#[test]
fn duplicate_registration_is_an_error() {
    let mut options = Language::new();
    options
        .tags
        .register("assign".to_string(), TagPlugin::Assign(AssignTag::new()))
        .unwrap();
    let err = options
        .tags
        .register("assign".to_string(), TagPlugin::Assign(AssignTag::new()))
        .unwrap_err();
    assert_eq!(err.kind, ErrorKind::Parse);
}

#[test]
fn filter_chain_renders_back_to_source_syntax() {
    let entry = Expression::Path(
        "tags".to_string(),
        vec![PathSeg::Key("greek".to_string()), PathSeg::Index(-2)],
    );
    let chain = FilterChain::new(entry, vec![]);
    assert_eq!(chain.source_string(), "tags.greek[-2]");
}

#[test]
fn range_loop_walks_inclusively() {
    assert_eq!(render_with_tags("{% for a in (3..5) %}{{ a }},{% endfor %}"), "3,4,5,");
}

#[test]
fn for_over_nil_renders_nothing() {
    assert_eq!(render_with_tags("{% for a in absent %}{{ a }}{% endfor %}"), "");
}

#[test]
fn truthiness_follows_nil_and_false_only() {
    assert_eq!(render_with_tags("{% assign x = 0 %}{% if x %}t{% endif %}"), "t");
    assert_eq!(render_with_tags("{% assign x = false %}{% if x %}t{% endif %}"), "");
    assert_eq!(render_with_tags("{% if absent %}t{% endif %}"), "");
}

#[test]
fn equality_compares_structurally() {
    assert_eq!(render_with_tags("{% if tags[0] == 'alpha' %}y{% endif %}"), "y");
    assert_eq!(render_with_tags("{% if tags[0] != 'beta' %}y{% endif %}"), "y");
    assert_eq!(render_with_tags("{% if 3 <= 3 %}y{% endif %}"), "y");
    assert_eq!(render_with_tags("{% if 3 < 3 %}y{% endif %}"), "");
}

#[test]
fn arrays_render_as_their_elements_run_together() {
    assert_eq!(render_with_tags("{{ tags }}"), "alphabetagamma");
}

#[test]
fn streaming_keeps_text_written_before_a_failure() {
    let options = full_options();
    let template = parse("before{{ 1 | size: 2 }}", &options).map(Template::new).unwrap();
    let mut runtime = Runtime::new();
    let mut out = String::new();
    let err = template.render_to(&mut out, &mut runtime).unwrap_err();
    assert_eq!(err.kind, ErrorKind::Evaluation);
    assert_eq!(out, "before");
}

#[test]
fn empty_template_renders_nothing() {
    let options = full_options();
    let template = parse("", &options).map(Template::new).unwrap();
    let mut runtime = Runtime::new();
    assert_eq!(template.render(&mut runtime).unwrap(), "");
}

#[test]
fn plain_text_renders_itself() {
    let options = full_options();
    let template = parse("hello world", &options).map(Template::new).unwrap();
    let mut runtime = Runtime::new();
    assert_eq!(template.render(&mut runtime).unwrap(), "hello world");
}

#[test]
fn assign_error_carries_its_source_in_the_trace() {
    let options = full_options();
    let template = parse("{% assign x = tags | size: 1 %}", &options)
        .map(Template::new)
        .unwrap();
    let mut runtime = Runtime::new();
    let err = template.render(&mut runtime).unwrap_err();
    assert_eq!(err.kind, ErrorKind::Evaluation);
    assert_eq!(err.trace.last().unwrap(), "{% assign x = tags | size: 1%}");
}

#[test]
fn dates_render_in_calendar_form() {
    let options = full_options();
    let template = parse("{{ when }}", &options).map(Template::new).unwrap();
    let mut runtime = Runtime::new();
    runtime.set_global(
        "when".to_string(),
        Value::date_from_ymd(2024, 3, 7).unwrap(),
    );
    assert_eq!(template.render(&mut runtime).unwrap(), "2024-03-07");
}

#[test]
fn date_construction_checks_the_calendar() {
    assert!(Value::date_from_ymd(2024, 2, 29).is_some());
    assert!(Value::date_from_ymd(2023, 2, 29).is_none());
    assert!(Value::date_from_ymd(1900, 2, 29).is_none());
    assert!(Value::date_from_ymd(2000, 2, 29).is_some());
    assert!(Value::date_from_ymd(2024, 13, 1).is_none());
    assert!(Value::date_from_ymd(2024, 4, 31).is_none());
    assert!(Value::date_from_ymd(2024, 0, 1).is_none());
    assert!(Value::date_from_ymd(2024, 12, 31).is_some());
}

#[test]
fn dates_compare_by_their_fields() {
    let a = Value::date_from_ymd(2024, 3, 7).unwrap();
    let b = Value::date_from_ymd(2024, 3, 7).unwrap();
    let c = Value::date_from_ymd(2024, 3, 8).unwrap();
    assert!(a.equals(&b));
    assert!(!a.equals(&c));
}

#[test]
fn the_most_negative_integer_literal_parses() {
    assert_eq!(
        render_with_tags("{{ -9223372036854775808 }}"),
        "-9223372036854775808"
    );
    let options = full_options();
    let err = parse("{{ 9223372036854775808 }}", &options).unwrap_err();
    assert_eq!(err.kind, ErrorKind::Parse);
}

#[test]
fn scalar_projection_refuses_structures_and_nil() {
    assert!(Value::Int(3).as_scalar().is_some());
    assert!(Value::Str("x".to_string()).as_scalar().is_some());
    assert!(Value::Bool(false).as_scalar().is_some());
    assert!(Value::date_from_ymd(2024, 1, 2).unwrap().as_scalar().is_some());
    assert!(Value::Nil.as_scalar().is_none());
    assert!(Value::Array(vec![]).as_scalar().is_none());
    assert!(Value::Object(vec![]).as_scalar().is_none());
}

#[test]
fn object_equality_ignores_insertion_order() {
    let a = Value::Object(vec![
        ("x".to_string(), Value::Int(1)),
        ("y".to_string(), Value::Int(2)),
    ]);
    let b = Value::Object(vec![
        ("y".to_string(), Value::Int(2)),
        ("x".to_string(), Value::Int(1)),
    ]);
    let c = Value::Object(vec![
        ("x".to_string(), Value::Int(1)),
        ("z".to_string(), Value::Int(2)),
    ]);
    assert!(a.equals(&b));
    assert!(b.equals(&a));
    assert!(!a.equals(&c));
    assert!(!c.equals(&a));
}

#[test]
fn if_equality_ignores_object_order() {
    let options = full_options();
    let template = parse("{% if a == b %}same{% endif %}", &options)
        .map(Template::new)
        .unwrap();
    let mut runtime = Runtime::new();
    runtime.set_global(
        "a".to_string(),
        Value::Object(vec![
            ("x".to_string(), Value::Int(1)),
            ("y".to_string(), Value::Int(2)),
        ]),
    );
    runtime.set_global(
        "b".to_string(),
        Value::Object(vec![
            ("y".to_string(), Value::Int(2)),
            ("x".to_string(), Value::Int(1)),
        ]),
    );
    assert_eq!(template.render(&mut runtime).unwrap(), "same");
}
