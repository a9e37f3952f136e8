use agent_core::invocation::Invocation;
use agent_core::parser::parse_model_response;

fn pairs(v: &[(&str, &str)]) -> Vec<(String, String)> {
    v.iter().map(|(k, x)| (k.to_string(), x.to_string())).collect()
}

#[test]
fn parse_empty_input() {
    assert!(parse_model_response("").is_empty());
    assert!(parse_model_response("no tags at all").is_empty());
}

#[test]
fn parse_single_tag() {
    let r = parse_model_response("<read-file>/tmp/a.txt</read-file>");
    assert_eq!(r.len(), 1);
    assert_eq!(r[0].action(), "read-file");
    assert_eq!(r[0].attributes(), &None);
    assert_eq!(r[0].payload(), &Some("/tmp/a.txt".to_string()));
}

#[test]
fn attributes_absent_without_space() {
    let r = parse_model_response("<cmd>payload</cmd>");
    assert_eq!(r.len(), 1);
    assert_eq!(r[0].attributes(), &None);
    assert_eq!(r[0].payload(), &Some("payload".to_string()));
}

#[test]
fn attributes_present_with_empty_payload() {
    let r = parse_model_response("<cmd attr=\"x\"></cmd>");
    assert_eq!(r.len(), 1);
    assert_eq!(r[0].attributes(), &Some(pairs(&[("attr", "x")])));
    assert_eq!(r[0].payload(), &None);
}

#[test]
fn empty_attribute_block_is_present() {
    let r = parse_model_response("<cmd garbage></cmd>");
    assert_eq!(r.len(), 1);
    assert_eq!(r[0].attributes(), &Some(vec![]));
}

#[test]
fn duplicate_keys_keep_last_value() {
    let r = parse_model_response("<cmd a=\"1\" b=\"2\" a=\"3\">p</cmd>");
    assert_eq!(r[0].attributes(), &Some(pairs(&[("a", "3"), ("b", "2")])));
}

#[test]
fn attribute_keys_and_values_are_trimmed() {
    let r = parse_model_response("<cmd  key =\" v \" other=\"w\">p</cmd>");
    assert_eq!(r[0].attributes(), &Some(pairs(&[("key", "v"), ("other", "w")])));
}

#[test]
fn unterminated_tag_is_skipped() {
    let r = parse_model_response("<a>foo <b>bar</b> <c>never closed");
    assert_eq!(r.len(), 1);
    assert_eq!(r[0].action(), "b");
    assert_eq!(r[0].payload(), &Some("bar".to_string()));
}

#[test]
fn nested_markup_is_not_a_payload() {
    let r = parse_model_response("<a><b>x</b></a>");
    assert_eq!(r.len(), 1);
    assert_eq!(r[0].action(), "a");
    assert_eq!(r[0].payload(), &None);
}

#[test]
fn payload_is_trimmed() {
    let r = parse_model_response("<a>\n  hello world \t</a>");
    assert_eq!(r[0].payload(), &Some("hello world".to_string()));
}

#[test]
fn stray_angle_brackets_do_not_stall() {
    let text = "<<< > <x>1</x> < <y a=\"b\">2</y>";
    let r = parse_model_response(text);
    assert!(r.len() <= text.matches('<').count());
    assert_eq!(r.len(), 2);
    assert_eq!(r[0].action(), "x");
    assert_eq!(r[1].action(), "y");
}

#[test]
fn canonical_form_layout() {
    let i = Invocation::new(
        "write".to_string(),
        Some(pairs(&[("path", "/tmp/x")])),
        Some("data".to_string()),
    );
    assert_eq!(i.to_structured_string(), "<write path=\"/tmp/x\">data</write>");
    let j = Invocation::new("noop".to_string(), None, None);
    assert_eq!(j.to_structured_string(), "<noop></noop>");
}

#[test]
fn canonical_form_round_trips() {
    let i = Invocation::new(
        "write".to_string(),
        Some(pairs(&[("path", "/tmp/x"), ("mode", "append")])),
        Some("some data".to_string()),
    );
    let r = parse_model_response(i.to_structured_string());
    assert_eq!(r.len(), 1);
    assert_eq!(r[0].action(), i.action());
    assert_eq!(r[0].attributes(), i.attributes());
    assert_eq!(r[0].payload(), i.payload());
}

#[test]
fn repeated_command_has_same_canonical_form() {
    let r = parse_model_response(
        "<read-file>/tmp/a.txt</read-file> noise <read-file>/tmp/a.txt</read-file>",
    );
    assert_eq!(r.len(), 2);
    assert_eq!(r[0].to_structured_string(), r[1].to_structured_string());
}

#[test]
fn unicode_text_is_handled() {
    let r = parse_model_response("héllo <tâche clé=\"välue\">  données ✓ </tâche>");
    assert_eq!(r.len(), 1);
    assert_eq!(r[0].action(), "tâche");
    assert_eq!(r[0].attributes(), &Some(pairs(&[("clé", "välue")])));
    assert_eq!(r[0].payload(), &Some("données ✓".to_string()));
}

#[test]
fn attribute_order_does_not_change_canonical_form() {
    let a = Invocation::new(
        "write".to_string(),
        Some(pairs(&[("path", "/tmp/x"), ("mode", "append")])),
        Some("data".to_string()),
    );
    let b = Invocation::new(
        "write".to_string(),
        Some(pairs(&[("mode", "append"), ("path", "/tmp/x")])),
        Some("data".to_string()),
    );
    assert_eq!(a.to_structured_string(), b.to_structured_string());
    assert_eq!(a.to_structured_string(), "<write mode=\"append\" path=\"/tmp/x\">data</write>");
    assert_eq!(a.attributes(), &Some(pairs(&[("mode", "append"), ("path", "/tmp/x")])));
}
