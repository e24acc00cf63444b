use timsync::global_ctx::{GlobalContext, IdentifiedDocument, ProcessorContext};
use timsync::json::{find_member, get_member, set_member, JsonMember, JsonValue};
use timsync::keyed::Keyed;
use timsync::markdown_processor::{render_context, RenderInput};
use timsync::processors::FileProcessorType;
use timsync::task_processor::{task_render_context, TaskRenderInput};
use timsync::tim_document::TIMDocument;

fn text(s: &str) -> JsonValue {
    JsonValue::Text(s.to_string())
}

fn object(members: Vec<(&str, JsonValue)>) -> JsonValue {
    JsonValue::Object(members.into_iter().map(|(k, v)| JsonMember { key: k.to_string(), value: v }).collect())
}

fn show(value: &JsonValue) -> String {
    match value {
        JsonValue::Null => "null".to_string(),
        JsonValue::Bool(b) => b.to_string(),
        JsonValue::Number(n) => n.clone(),
        JsonValue::Text(t) => format!("{:?}", t),
        JsonValue::Array(items) => format!("[{}]", items.iter().map(show).collect::<Vec<_>>().join(",")),
        JsonValue::Object(members) => format!(
            "{{{}}}",
            members.iter().map(|m| format!("{:?}:{}", m.key, show(&m.value))).collect::<Vec<_>>().join(",")
        ),
    }
}

#[test]
fn objects_merge_member_by_member() {
    let mut a = object(vec![
        ("title", text("Old")),
        ("nested", object(vec![("keep", text("k")), ("over", text("a"))])),
        ("list", JsonValue::Array(vec![text("x")])),
    ]);
    let b = object(vec![
        ("nested", object(vec![("over", text("b")), ("new", JsonValue::Bool(true))])),
        ("list", JsonValue::Array(vec![])),
        ("extra", JsonValue::Number("12".to_string())),
    ]);
    a.merge(&b);
    assert_eq!(
        show(&a),
        "{\"title\":\"Old\",\"nested\":{\"keep\":\"k\",\"over\":\"b\",\"new\":true},\"list\":[],\"extra\":12}"
    );
}

#[test]
fn anything_but_two_objects_is_replaced() {
    let mut a = text("a");
    a.merge(&object(vec![("k", JsonValue::Null)]));
    assert_eq!(show(&a), "{\"k\":null}");
    let mut b = object(vec![("k", JsonValue::Null)]);
    b.merge(&JsonValue::Number("3".to_string()));
    assert_eq!(show(&b), "3");
    let copy = a.duplicate();
    assert_eq!(show(&copy), show(&a));
}

#[test]
fn members_are_set_and_found() {
    let mut members: Vec<JsonMember> = Vec::new();
    set_member(&mut members, "a", text("1"));
    set_member(&mut members, "b", text("2"));
    set_member(&mut members, "a", text("3"));
    assert_eq!(members.len(), 2);
    assert_eq!(find_member(&members, "a"), 0);
    assert_eq!(find_member(&members, "b"), 1);
    assert_eq!(find_member(&members, "c"), 2);
    assert_eq!(show(get_member(&members, "a").unwrap()), "\"3\"");
    assert!(get_member(&members, "c").is_none());
}

#[test]
fn rendering_sees_the_global_data_under_site() {
    let mut ctx = GlobalContext::new(object(vec![("title", text("My TIM page")), ("host", text("overridden"))]));
    let mut home = TIMDocument::new(FileProcessorType::Markdown, "Home".to_string(), "index".to_string());
    home.id = Some(7);
    let guide = TIMDocument::new(FileProcessorType::Markdown, "Guide".to_string(), "docs/guide".to_string());
    ctx.insert_documents(&vec![
        IdentifiedDocument { uid: Some("home".to_string()), document: home },
        IdentifiedDocument { uid: None, document: guide },
    ]);
    ctx.insert_target("https://tim.example", "kurssit/tie");
    ctx.extend(ProcessorContext {
        entries: vec![Keyed {
            key: "style_themes".to_string(),
            value: vec![Keyed { key: "dark".to_string(), value: "/kurssit/tie/themes/dark".to_string() }],
        }],
    });
    let frozen = ctx.freeze();
    assert_eq!(
        show(&frozen.handlebars_context()),
        "{\"site\":{\"title\":\"My TIM page\",\"host\":\"https://tim.example\",\
         \"doc\":{\"home\":{\"doc_id\":7,\"path\":\"index\",\"title\":\"Home\"}},\
         \"docs\":[{\"doc_id\":7,\"path\":\"index\",\"title\":\"Home\"},{\"doc_id\":null,\"path\":\"docs/guide\",\"title\":\"Guide\"}],\
         \"base_path\":\"kurssit/tie\",\
         \"style_themes\":{\"dark\":\"/kurssit/tie/themes/dark\"}}}"
    );

    let input = RenderInput {
        template: String::new(),
        title: "Guide".to_string(),
        path: "docs/guide".to_string(),
        doc_id: 8,
        local_file_path: Some("docs/guide.md".to_string()),
    };
    let front_matter = object(vec![("title", text("From front matter")), ("author", text("A"))]);
    let context = render_context(&frozen, &front_matter, &input);
    let members = match &context {
        JsonValue::Object(members) => members,
        other => panic!("unexpected context: {:?}", other),
    };
    let names: Vec<&str> = members.iter().map(|m| m.key.as_str()).collect();
    assert_eq!(names, vec!["site", "title", "author", "path", "doc_id", "local_file_path"]);
    assert_eq!(show(get_member(members, "title").unwrap()), "\"Guide\"");
    assert_eq!(show(get_member(members, "doc_id").unwrap()), "8");
    assert_eq!(show(get_member(members, "local_file_path").unwrap()), "\"docs/guide.md\"");

    let task_input = TaskRenderInput { uid: "t".to_string(), template: String::new(), local_file_path: None };
    let task_context = task_render_context(&frozen, &JsonValue::Object(Vec::new()), &task_input);
    let task_members = match &task_context {
        JsonValue::Object(members) => members,
        other => panic!("unexpected context: {:?}", other),
    };
    assert_eq!(show(get_member(task_members, "path").unwrap()), "\"_project_tasks\"");
    assert_eq!(show(get_member(task_members, "local_file_path").unwrap()), "null");
}
