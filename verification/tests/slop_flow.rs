use omnissiatac::config::ComfyUIConfig;
use omnissiatac::slop::{
    failure_reply, history_url, images_pointer, prompt_url, timeout_message, view_url,
    workflow_edits, workflow_edits_with_seed, InputValue, DEFAULT_WORKFLOW,
};

fn comfy() -> ComfyUIConfig {
    ComfyUIConfig {
        base_url: "http://comfy:8188".to_string(),
        ckpt_name: "model.ckpt".to_string(),
        checkpoint_node_id: "4".to_string(),
        prompt_node_id: "6".to_string(),
        sampler_node_id: "3".to_string(),
        save_node_id: "9".to_string(),
        workflow: None,
    }
}

#[test]
fn workflow_inputs() {
    let e = workflow_edits_with_seed(&comfy(), "a cat", 77);
    assert_eq!(e.len(), 3);
    assert_eq!((e[0].node.as_str(), e[0].input.as_str()), ("4", "ckpt_name"));
    assert!(matches!(&e[0].value, InputValue::Text(t) if t == "model.ckpt"));
    assert_eq!((e[1].node.as_str(), e[1].input.as_str()), ("6", "text"));
    assert!(matches!(&e[1].value, InputValue::Text(t) if t == "a cat"));
    assert_eq!((e[2].node.as_str(), e[2].input.as_str()), ("3", "seed"));
    assert!(matches!(e[2].value, InputValue::Number(77)));
    let r = workflow_edits(&comfy(), "a dog");
    assert!(matches!(&r[1].value, InputValue::Text(t) if t == "a dog"));
    assert!(DEFAULT_WORKFLOW.contains("KSampler"));
}

#[test]
fn comfy_addresses() {
    let c = comfy();
    assert_eq!(prompt_url(&c), "http://comfy:8188/prompt");
    assert_eq!(history_url(&c, "abc"), "http://comfy:8188/history/abc");
    assert_eq!(view_url(&c, "img.png"), "http://comfy:8188/view?filename=img.png&type=output");
    assert_eq!(images_pointer(&c), "/outputs/9/images");
    assert_eq!(timeout_message(240), "Image generation timed out after 240 seconds");
    assert_eq!(failure_reply("boom"), "Failed to generate image: boom");
}

use omnissiatac::json::Json;
use omnissiatac::slop::{apply_workflow_edits, finished_image, workflow_accepts};

fn s(t: &str) -> String {
    t.to_string()
}

fn obj(members: Vec<(&str, Json)>) -> Json {
    Json::Object(members.into_iter().map(|(k, v)| (s(k), v)).collect())
}

fn get<'a>(v: &'a Json, key: &str) -> Option<&'a Json> {
    match v {
        Json::Object(es) => es.iter().find(|(k, _)| k == key).map(|(_, v)| v),
        _ => None,
    }
}

fn text(v: Option<&Json>) -> Option<String> {
    match v {
        Some(Json::Str(t)) => Some(t.clone()),
        Some(Json::Number(t)) => Some(t.clone()),
        _ => None,
    }
}

fn small_workflow() -> Json {
    obj(vec![
        ("3", obj(vec![("inputs", obj(vec![("seed", Json::Number(s("0"))), ("steps", Json::Number(s("20")))]))])),
        ("4", obj(vec![("inputs", Json::Null)])),
        ("6", obj(vec![("inputs", obj(vec![("text", Json::Str(s("")))])), ("class_type", Json::Str(s("CLIPTextEncode")))])),
    ])
}

#[test]
fn workflow_edits_fill_the_nodes() {
    let w = small_workflow();
    let edits = workflow_edits_with_seed(&comfy(), "a cat", 77);
    assert!(workflow_accepts(&w, &edits));
    let r = apply_workflow_edits(w, &edits);
    let seed = get(get(&r, "3").unwrap(), "inputs").unwrap();
    assert_eq!(text(get(seed, "seed")), Some(s("77")));
    assert_eq!(text(get(seed, "steps")), Some(s("20")));
    assert_eq!(text(get(get(get(&r, "4").unwrap(), "inputs").unwrap(), "ckpt_name")), Some(s("model.ckpt")));
    assert_eq!(text(get(get(get(&r, "6").unwrap(), "inputs").unwrap(), "text")), Some(s("a cat")));
    assert_eq!(text(get(get(&r, "6").unwrap(), "class_type")), Some(s("CLIPTextEncode")));
}

#[test]
fn workflow_without_the_nodes_is_unchanged() {
    let w = obj(vec![("1", obj(vec![("x", Json::Bool(true))]))]);
    let edits = workflow_edits_with_seed(&comfy(), "p", 1);
    assert!(workflow_accepts(&w, &edits));
    let r = apply_workflow_edits(w, &edits);
    match &r {
        Json::Object(es) => assert_eq!(es.len(), 1),
        _ => panic!("not an object"),
    }
}

#[test]
fn workflow_with_number_inputs_is_refused() {
    let w = obj(vec![("6", obj(vec![("inputs", Json::Number(s("5")))]))]);
    let edits = workflow_edits_with_seed(&comfy(), "p", 1);
    assert!(!workflow_accepts(&w, &edits));
}

#[test]
fn history_gives_the_image_name() {
    let image = |name: Json| {
        obj(vec![("abc", obj(vec![("outputs", obj(vec![("9", obj(vec![("images", Json::Array(vec![obj(vec![("filename", name)])]))]))]))]))])
    };
    assert!(finished_image(&obj(vec![]), "abc", &comfy()).is_none());
    assert!(finished_image(&Json::Null, "abc", &comfy()).is_none());
    match finished_image(&image(Json::Str(s("out_0001.png"))), "abc", &comfy()) {
        Some(Ok(n)) => assert_eq!(n, "out_0001.png"),
        other => panic!("{:?}", other),
    }
    match finished_image(&image(Json::Number(s("3"))), "abc", &comfy()) {
        Some(Err(e)) => assert_eq!(e, "Failed to get image filename from ComfyUI"),
        other => panic!("{:?}", other),
    }
    let empty = obj(vec![("abc", obj(vec![("outputs", obj(vec![("9", obj(vec![("images", Json::Array(vec![]))]))]))]))]);
    assert!(finished_image(&empty, "abc", &comfy()).is_none());
}
