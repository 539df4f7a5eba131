//! Image generation: which workflow inputs the bot fills in, and the addresses it talks to.
use vstd::prelude::*;

use crate::config::ComfyUIConfig;
use crate::json::{find_key, get_member, get_pointer, key_index, lemma_key_index_props, lemma_key_index_same_keys, member, pointer, str_or_empty, Json};
use crate::text::{push_decimal, push_str_chars, string_from_chars};

verus! {

/// The workflow used when the configuration has none (a ComfyUI graph in JSON).
pub const DEFAULT_WORKFLOW: &'static str = r#"{
        "3": {
            "inputs": {
                "seed": 0,
                "steps": 20,
                "cfg": 7,
                "sampler_name": "euler",
                "scheduler": "normal",
                "denoise": 1,
                "model": ["4", 0],
                "positive": ["6", 0],
                "negative": ["7", 0],
                "latent_image": ["5", 0]
            },
            "class_type": "KSampler"
        },
        "4": {
            "inputs": { "ckpt_name": "v1-5-pruned-emaonly.ckpt" },
            "class_type": "CheckpointLoaderSimple"
        },
        "5": {
            "inputs": { "width": 512, "height": 512, "batch_size": 1 },
            "class_type": "EmptyLatentImage"
        },
        "6": {
            "inputs": { "text": "", "clip": ["4", 1] },
            "class_type": "CLIPTextEncode"
        },
        "7": {
            "inputs": { "text": "text, watermark, low quality", "clip": ["4", 1] },
            "class_type": "CLIPTextEncode"
        },
        "8": {
            "inputs": { "samples": ["3", 0], "vae": ["4", 2] },
            "class_type": "VAEDecode"
        },
        "9": {
            "inputs": { "filename_prefix": "OmnissiATAC", "images": ["8", 0] },
            "class_type": "SaveImage"
        }
    }"#;

/// Seconds to wait for an image when the configuration says nothing.
pub const DEFAULT_TIMEOUT_SECS: u64 = 240;

/// A value put into a workflow input.
pub enum InputValue {
    Text(String),
    Number(u64),
}

/// Set input `input` of node `node` to `value`, when that node has inputs.
pub struct InputEdit {
    pub node: String,
    pub input: String,
    pub value: InputValue,
}

/// The edit of `input` of `node` to the text `value`.
pub open spec fn text_edit(e: InputEdit, node: Seq<char>, input: Seq<char>, value: Seq<char>) -> bool {
    &&& e.node@ == node
    &&& e.input@ == input
    &&& e.value matches InputValue::Text(t) && t@ == value
}

/// The edits applied to the workflow, in order: the checkpoint model, the prompt, and the
/// sampler's seed.
pub open spec fn workflow_edits_ok(config: ComfyUIConfig, prompt: Seq<char>, seed: u64, edits: Seq<InputEdit>) -> bool {
    &&& edits.len() == 3
    &&& text_edit(edits[0], config.checkpoint_node_id@, "ckpt_name"@, config.ckpt_name@)
    &&& text_edit(edits[1], config.prompt_node_id@, "text"@, prompt)
    &&& edits[2].node@ == config.sampler_node_id@ && edits[2].input@ == "seed"@
        && edits[2].value == InputValue::Number(seed)
}

/// The edits that put the model, `prompt` and `seed` into the workflow (see
/// [`workflow_edits_ok`]).
pub fn workflow_edits_with_seed(config: &ComfyUIConfig, prompt: &str, seed: u64) -> (edits: Vec<InputEdit>)
    ensures
        workflow_edits_ok(*config, prompt@, seed, edits@),
{
    let mut edits: Vec<InputEdit> = Vec::new();
    edits.push(InputEdit {
        node: config.checkpoint_node_id.clone(),
        input: String::from_str("ckpt_name"),
        value: InputValue::Text(config.ckpt_name.clone()),
    });
    edits.push(InputEdit {
        node: config.prompt_node_id.clone(),
        input: String::from_str("text"),
        value: InputValue::Text(String::from_str(prompt)),
    });
    edits.push(InputEdit {
        node: config.sampler_node_id.clone(),
        input: String::from_str("seed"),
        value: InputValue::Number(seed),
    });
    edits
}

/// `rand::random::<u64>()`: a seed from the thread's random generator (which one is not
/// claimed).
#[verifier::external_body]
fn random_seed() -> (seed: u64) {
    rand::random::<u64>()
}

/// The edits for a new image, with a random seed (see [`workflow_edits_ok`]).
pub fn workflow_edits(config: &ComfyUIConfig, prompt: &str) -> (edits: Vec<InputEdit>)
    ensures
        exists|seed: u64| workflow_edits_ok(*config, prompt@, seed, edits@),
{
    let seed = random_seed();
    workflow_edits_with_seed(config, prompt, seed)
}

/// `base` followed by `path`.
fn joined(base: &String, path: &str) -> (s: String)
    ensures
        s@ == base@ + path@,
{
    let mut s = base.clone();
    s.append(path);
    s
}

/// Where prompts are queued: `<base>/prompt`.
pub fn prompt_url(config: &ComfyUIConfig) -> (url: String)
    ensures
        url@ == config.base_url@ + "/prompt"@,
{
    joined(&config.base_url, "/prompt")
}

/// Where the state of prompt `id` is read: `<base>/history/<id>`.
pub fn history_url(config: &ComfyUIConfig, id: &str) -> (url: String)
    ensures
        url@ == config.base_url@ + "/history/"@ + id@,
{
    let mut s = joined(&config.base_url, "/history/");
    s.append(id);
    s
}

/// Where a finished image is fetched: `<base>/view?filename=<name>&type=output`.
pub fn view_url(config: &ComfyUIConfig, filename: &str) -> (url: String)
    ensures
        url@ == config.base_url@ + "/view?filename="@ + filename@ + "&type=output"@,
{
    let mut s = joined(&config.base_url, "/view?filename=");
    s.append(filename);
    s.append("&type=output");
    s
}

/// Where the images of the save node are listed in a prompt's history entry:
/// `/outputs/<save node>/images`.
pub fn images_pointer(config: &ComfyUIConfig) -> (p: String)
    ensures
        p@ == "/outputs/"@ + config.save_node_id@ + "/images"@,
{
    let mut s = String::from_str("/outputs/");
    s.append(config.save_node_id.as_str());
    s.append("/images");
    s
}

/// The failure reported when no image came within `secs` seconds.
pub open spec fn timeout_text(secs: u64) -> Seq<char> {
    "Image generation timed out after "@ + crate::text::decimal(secs as nat) + " seconds"@
}

/// The failure reported when no image came within `secs` seconds (see [`timeout_text`]).
pub fn timeout_message(secs: u64) -> (s: String)
    ensures
        s@ == timeout_text(secs),
{
    let mut v: Vec<char> = Vec::new();
    push_str_chars(&mut v, "Image generation timed out after ");
    push_decimal(&mut v, secs);
    push_str_chars(&mut v, " seconds");
    string_from_chars(&v)
}

/// The failure reported when the server named no image file.
pub const NO_FILENAME_ERROR: &'static str = "Failed to get image filename from ComfyUI";

/// Said while the image is made.
pub const GENERATING_REPLY: &'static str = "Generating slop... please wait.";

/// Said with the finished image.
pub const IMAGE_READY_REPLY: &'static str = "Here is your generated image:";

/// The name of the attached image.
pub const IMAGE_FILE_NAME: &'static str = "slop.png";

/// The answer to `!slop` without a prompt.
pub const SLOP_USAGE: &'static str = "Usage: `!slop <prompt>`";

/// The answer when the image could not be made.
pub open spec fn failure_text(cause: Seq<char>) -> Seq<char> {
    "Failed to generate image: "@ + cause
}

/// The answer when the image could not be made (see [`failure_text`]).
pub fn failure_reply(cause: &str) -> (s: String)
    ensures
        s@ == failure_text(cause@),
{
    let mut s = String::from_str("Failed to generate image: ");
    s.append(cause);
    s
}

/// `j` is the JSON form of an input value: a text as a string, a number as its decimal digits.
pub open spec fn input_json(v: InputValue, j: Json) -> bool {
    match v {
        InputValue::Text(t) => j matches Json::Str(s) && s@ == t@,
        InputValue::Number(n) => j matches Json::Number(s) && s@ == crate::text::decimal(n as nat),
    }
}

/// The JSON form of `v` (see [`input_json`]).
fn to_json(v: &InputValue) -> (j: Json)
    ensures
        input_json(*v, j),
{
    match v {
        InputValue::Text(t) => Json::Str(t.clone()),
        InputValue::Number(n) => Json::Number(crate::text::decimal_string(*n)),
    }
}

/// `rs` is the members `es` with member `key` set to the JSON form of `v`: in place of the
/// first member so called, or added at the end.
pub open spec fn members_set(es: Seq<(String, Json)>, key: Seq<char>, v: InputValue, rs: Seq<(String, Json)>) -> bool {
    let m = key_index(es, key);
    if m < es.len() {
        &&& rs.len() == es.len()
        &&& forall|k: int| 0 <= k < es.len() && k != m ==> #[trigger] rs[k] == es[k]
        &&& rs[m as int].0 == es[m as int].0
        &&& input_json(v, rs[m as int].1)
    } else {
        &&& rs.len() == es.len() + 1
        &&& forall|k: int| 0 <= k < es.len() ==> #[trigger] rs[k] == es[k]
        &&& rs[es.len() as int].0@ == key
        &&& input_json(v, rs[es.len() as int].1)
    }
}

/// Whether a key can be assigned in `j` (`j[key] = x`): objects and null allow it; any other
/// value makes the assignment panic.
pub open spec fn assignable(j: Json) -> bool {
    j is Object || j is Null
}

/// `r` is `inp` after `inp[key] = <v>`: an object gets the member set, null becomes an object
/// with that one member.
pub open spec fn assigned(inp: Json, key: Seq<char>, v: InputValue, r: Json) -> bool {
    match inp {
        Json::Object(is) => r matches Json::Object(rs) && members_set(is@, key, v, rs@),
        _ => r matches Json::Object(rs) && members_set(Seq::empty(), key, v, rs@),
    }
}

/// Where the inputs of node `node` sit in the workflow `w`: the node's index among the
/// workflow's members and the index of its `inputs` member, when the workflow is an object,
/// the node exists and is an object, and it has inputs.
pub open spec fn inputs_at(w: Json, node: Seq<char>) -> Option<(int, int)> {
    match w {
        Json::Object(es) => {
            let i = key_index(es@, node);
            if i < es@.len() {
                match es@[i as int].1 {
                    Json::Object(ns) => {
                        let j = key_index(ns@, "inputs"@);
                        if j < ns@.len() {
                            Some((i as int, j as int))
                        } else {
                            None
                        }
                    },
                    _ => None,
                }
            } else {
                None
            }
        },
        _ => None,
    }
}

/// The inputs of node `node` of `w`, when it has them (see [`inputs_at`]).
pub open spec fn inputs_of(w: Json, node: Seq<char>) -> Option<Json> {
    match inputs_at(w, node) {
        Some((i, j)) => match w {
            Json::Object(es) => match es@[i].1 {
                Json::Object(ns) => Some(ns@[j].1),
                _ => None,
            },
            _ => None,
        },
        None => None,
    }
}

/// `r` is `w` after edit `e`: when node `e.node` has inputs, its input `e.input` is set to the
/// edit's value and all else stays; otherwise `w` is unchanged.
pub open spec fn edit_applied(w: Json, e: InputEdit, r: Json) -> bool {
    match inputs_at(w, e.node@) {
        None => r == w,
        Some((i, j)) => match w {
            Json::Object(es) => match es@[i].1 {
                Json::Object(ns) => {
                    &&& r matches Json::Object(res)
                    &&& res@.len() == es@.len()
                    &&& forall|k: int| 0 <= k < es@.len() && k != i ==> #[trigger] res@[k] == es@[k]
                    &&& res@[i].0 == es@[i].0
                    &&& res@[i].1 matches Json::Object(rns)
                    &&& rns@.len() == ns@.len()
                    &&& forall|k: int| 0 <= k < ns@.len() && k != j ==> #[trigger] rns@[k] == ns@[k]
                    &&& rns@[j].0 == ns@[j].0
                    &&& assigned(ns@[j].1, e.input@, e.value, rns@[j].1)
                },
                _ => false,
            },
            _ => false,
        },
    }
}

/// Every edit of `edits` can be made on `w`: each node's inputs, where present, are an object
/// or null.
pub open spec fn edits_accepted(w: Json, edits: Seq<InputEdit>) -> bool {
    forall|k: int| 0 <= k < edits.len() ==> match inputs_of(w, (#[trigger] edits[k]).node@) {
        Some(x) => assignable(x),
        None => true,
    }
}

/// `r` is `w` after the edits, one after the other.
pub open spec fn edits_applied(w: Json, edits: Seq<InputEdit>, r: Json) -> bool {
    exists|ws: Seq<Json>|
        #![trigger ws.len()]
        ws.len() == edits.len() + 1 && ws[0] == w && ws[edits.len() as int] == r && forall|k: int|
            0 <= k < edits.len() ==> edit_applied(ws[k], #[trigger] edits[k], ws[k + 1])
}

/// Sets member `key` of `es` to the JSON form of `v` (see [`members_set`]).
fn set_member(es: Vec<(String, Json)>, key: &String, v: &InputValue) -> (rs: Vec<(String, Json)>)
    ensures
        members_set(es@, key@, *v, rs@),
{
    let mut es = es;
    let ghost old_es = es@;
    let m = find_key(&es, key.as_str());
    if m < es.len() {
        let (k, _) = es.remove(m);
        es.insert(m, (k, to_json(v)));
        assert forall|t: int| 0 <= t < old_es.len() && t != m implies #[trigger] es@[t] == old_es[t] by {
            if t < m {
                assert(es@[t] == old_es.remove(m as int)[t]);
            } else {
                assert(es@[t] == old_es.remove(m as int)[t - 1]);
            }
        }
    } else {
        es.push((key.clone(), to_json(v)));
    }
    es
}

/// `inp[key] = <v>` (see [`assigned`]).
fn assign(inp: Json, key: &String, v: &InputValue) -> (r: Json)
    requires
        assignable(inp),
    ensures
        assigned(inp, key@, *v, r),
{
    match inp {
        Json::Object(is) => Json::Object(set_member(is, key, v)),
        _ => {
            let empty: Vec<(String, Json)> = Vec::new();
            assert(empty@ =~= Seq::<(String, Json)>::empty());
            Json::Object(set_member(empty, key, v))
        },
    }
}

/// Puts the value `x` back at index `i` of `es`, from which it was removed.
proof fn lemma_put_back(old_es: Seq<(String, Json)>, i: int, x: (String, Json))
    requires
        0 <= i < old_es.len(),
    ensures
        old_es.remove(i).insert(i, x).len() == old_es.len(),
        old_es.remove(i).insert(i, x)[i] == x,
        forall|k: int| 0 <= k < old_es.len() && k != i ==> #[trigger] old_es.remove(i).insert(i, x)[k] == old_es[k],
{
    assert forall|k: int| 0 <= k < old_es.len() && k != i implies #[trigger] old_es.remove(i).insert(i, x)[k] == old_es[k] by {
        if k < i {
            assert(old_es.remove(i).insert(i, x)[k] == old_es.remove(i)[k]);
        } else {
            assert(old_es.remove(i).insert(i, x)[k] == old_es.remove(i)[k - 1]);
        }
    }
}

/// Applies one edit to the workflow (see [`edit_applied`]).
fn apply_edit(w: Json, e: &InputEdit) -> (r: Json)
    requires
        inputs_of(w, e.node@) matches Some(x) ==> assignable(x),
    ensures
        edit_applied(w, *e, r),
{
    let ghost w0 = w;
    match w {
        Json::Object(es) => {
            let mut es = es;
            let ghost es0 = es@;
            let i = find_key(&es, e.node.as_str());
            if i >= es.len() {
                return Json::Object(es);
            }
            let has_inputs = match &es[i].1 {
                Json::Object(ns) => find_key(ns, "inputs") < ns.len(),
                _ => false,
            };
            proof {
                reveal_strlit("inputs");
            }
            if !has_inputs {
                return Json::Object(es);
            }
            let (nk, node) = es.remove(i);
            match node {
                Json::Object(ns) => {
                    let mut ns = ns;
                    let ghost ns0 = ns@;
                    let j = find_key(&ns, "inputs");
                    let (ik, inp) = ns.remove(j);
                    let newinp = assign(inp, &e.input, &e.value);
                    ns.insert(j, (ik, newinp));
                    proof {
                        lemma_put_back(ns0, j as int, ns@[j as int]);
                        assert(ns@ =~= ns0.remove(j as int).insert(j as int, ns@[j as int]));
                    }
                    es.insert(i, (nk, Json::Object(ns)));
                    proof {
                        lemma_put_back(es0, i as int, es@[i as int]);
                    }
                    Json::Object(es)
                },
                _ => {
                    assert(false);
                    Json::Null
                },
            }
        },
        other => other,
    }
}

/// After one edit, every edit that could be made before can still be made: node names and
/// input places stay, and edited inputs become objects.
proof fn lemma_edit_keeps_accepted(w: Json, e: InputEdit, r: Json, e2: InputEdit)
    requires
        edit_applied(w, e, r),
        inputs_of(w, e2.node@) matches Some(x) ==> assignable(x),
    ensures
        inputs_of(r, e2.node@) matches Some(x) ==> assignable(x),
{
    match inputs_at(w, e.node@) {
        None => {},
        Some((i, j)) => {
            if let Json::Object(es) = w {
                if let Json::Object(ns) = es@[i].1 {
                    if let Json::Object(res) = r {
                        assert forall|k: int| 0 <= k < es@.len() implies (#[trigger] es@[k]).0@ == res@[k].0@ by {
                            if k != i {
                                assert(res@[k] == es@[k]);
                            }
                        }
                        lemma_key_index_same_keys(es@, res@, e2.node@);
                        let i2 = key_index(es@, e2.node@);
                        lemma_key_index_props(es@, e.node@);
                        if i2 < es@.len() && i2 != i {
                            assert(res@[i2 as int] == es@[i2 as int]);
                        } else if i2 == i {
                            if let Json::Object(rns) = res@[i].1 {
                                assert forall|k: int| 0 <= k < ns@.len() implies (#[trigger] ns@[k]).0@ == rns@[k].0@ by {
                                    if k != j {
                                        assert(rns@[k] == ns@[k]);
                                    }
                                }
                                lemma_key_index_same_keys(ns@, rns@, "inputs"@);
                                let j2 = key_index(ns@, "inputs"@);
                                if j2 < ns@.len() && j2 != j {
                                    assert(rns@[j2 as int] == ns@[j2 as int]);
                                }
                            }
                        }
                    }
                }
            }
        },
    }
}

/// Applies the edits to the workflow `w`, in order (see [`edits_applied`]). Every edit must be
/// possible (see [`edits_accepted`]): assigning a key to inputs that are neither an object nor
/// null panics.
pub fn apply_workflow_edits(w: Json, edits: &Vec<InputEdit>) -> (r: Json)
    requires
        edits_accepted(w, edits@),
    ensures
        edits_applied(w, edits@, r),
{
    let ghost w0 = w;
    let ghost mut ws: Seq<Json> = seq![w];
    let mut cur = w;
    let mut i: usize = 0;
    while i < edits.len()
        invariant
            i <= edits.len(),
            ws.len() == i + 1,
            ws[0] == w0,
            ws[i as int] == cur,
            forall|k: int| 0 <= k < i ==> edit_applied(ws[k], #[trigger] edits@[k], ws[k + 1]),
            edits_accepted(cur, edits@),
        decreases edits.len() - i,
    {
        let ghost before = cur;
        assert(inputs_of(cur, edits@[i as int].node@) matches Some(x) ==> assignable(x));
        let next = apply_edit(cur, &edits[i]);
        proof {
            assert forall|k: int| 0 <= k < edits@.len() implies match inputs_of(next, (#[trigger] edits@[k]).node@) {
                Some(x) => assignable(x),
                None => true,
            } by {
                lemma_edit_keeps_accepted(before, edits@[i as int], next, edits@[k]);
            }
            let ws2 = ws.push(next);
            assert forall|k: int| 0 <= k < i + 1 implies edit_applied(ws2[k], #[trigger] edits@[k], ws2[k + 1]) by {
                if k < i {
                    assert(ws2[k] == ws[k] && ws2[k + 1] == ws[k + 1]);
                }
            }
            ws = ws2;
        }
        cur = next;
        i = i + 1;
    }
    assert(ws.len() == edits@.len() + 1);
    cur
}

/// Whether every edit can be made on `w` (see [`edits_accepted`]).
pub fn workflow_accepts(w: &Json, edits: &Vec<InputEdit>) -> (b: bool)
    ensures
        b == edits_accepted(*w, edits@),
{
    let mut i: usize = 0;
    while i < edits.len()
        invariant
            i <= edits.len(),
            forall|k: int| 0 <= k < i ==> match inputs_of(*w, (#[trigger] edits@[k]).node@) {
                Some(x) => assignable(x),
                None => true,
            },
        decreases edits.len() - i,
    {
        let ok = match get_member(w, edits[i].node.as_str()) {
            Some(node) => match get_member(node, "inputs") {
                Some(inp) => match inp {
                    Json::Object(_) => true,
                    Json::Null => true,
                    _ => false,
                },
                None => true,
            },
            None => true,
        };
        proof {
            reveal_strlit("inputs");
        }
        assert(ok == match inputs_of(*w, edits@[i as int].node@) {
            Some(x) => assignable(x),
            None => true,
        });
        if !ok {
            return false;
        }
        i = i + 1;
    }
    true
}

/// The first image a finished prompt lists: `history[prompt_id]`, then the pointer
/// `/outputs/<save node>/images`, then its first element's `filename` text (empty when it is
/// no string); `None` while the prompt has no such entry.
pub open spec fn first_image_name(history: Json, prompt_id: Seq<char>, save_node: Seq<char>) -> Option<Seq<char>> {
    match member(history, prompt_id) {
        Some(item) => match pointer(item, "/outputs/"@ + save_node + "/images"@) {
            Some(Json::Array(images)) => if images@.len() > 0 {
                Some(str_or_empty(member(images@[0], "filename"@)))
            } else {
                None
            },
            _ => None,
        },
        None => None,
    }
}

/// What a look at the history of prompt `prompt_id` tells: `None` while no image is listed;
/// once one is, its file name, or the no-filename error when that name is empty.
pub open spec fn image_outcome(history: Json, prompt_id: Seq<char>, save_node: Seq<char>, r: Option<Result<String, String>>) -> bool {
    match first_image_name(history, prompt_id, save_node) {
        None => r is None,
        Some(n) => if n.len() == 0 {
            r matches Some(Err(e)) && e@ == NO_FILENAME_ERROR@
        } else {
            r matches Some(Ok(f)) && f@ == n
        },
    }
}

/// Reads the history of a prompt (see [`image_outcome`]).
pub fn finished_image(history: &Json, prompt_id: &str, config: &ComfyUIConfig) -> (r: Option<Result<String, String>>)
    ensures
        image_outcome(*history, prompt_id@, config.save_node_id@, r),
{
    let item = match get_member(history, prompt_id) {
        Some(x) => x,
        None => return None,
    };
    let p = images_pointer(config);
    let images = match get_pointer(item, p.as_str()) {
        Some(Json::Array(a)) => a,
        _ => return None,
    };
    if images.len() == 0 {
        return None;
    }
    let name = match get_member(&images[0], "filename") {
        Some(Json::Str(s)) => s.clone(),
        _ => String::new(),
    };
    proof {
        reveal_strlit("filename");
    }
    if name.as_str().is_empty() {
        Some(Err(String::from_str(NO_FILENAME_ERROR)))
    } else {
        Some(Ok(name))
    }
}

} // verus!
