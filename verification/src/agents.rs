//! The OMO configuration's agents and categories: which model (and variant) each uses.
use vstd::prelude::*;

use crate::json::{text_of, JsonValue};
use crate::paths::{
    config_dir_spec, home_spec, join_path, join_result, join_spec, opencode_config_dir, path_outcome, under, user_home_dir, Env,
    OMO_CACHE_DIR_NAME,
};
use crate::text::{owned, str_eq};

verus! {

/// Where the OMO configuration file is, when it was last changed and how large it is.
#[derive(Debug)]
pub struct ConfigMetadata {
    pub path: String,
    pub last_modified: String,
    pub size: u64,
}

/// One change of model: the agent or category by name, the model, and the variant
/// (`"none"` removes it; no variant leaves it as it is).
#[derive(Debug)]
pub struct AgentUpdateRequest {
    pub agent_name: String,
    pub model: String,
    pub variant: Option<String>,
}

/// The OMO configuration file, `oh-my-openagent.json` in OpenCode's configuration
/// directory.
pub fn get_config_path(env: &Env) -> (r: Result<String, String>)
    ensures
        path_outcome(r, under(env.windows, config_dir_spec(*env), "oh-my-openagent.json"@)),
{
    join_result(env.windows, opencode_config_dir(env), "oh-my-openagent.json")
}

/// The OMO cache directory, `~/.cache/oh-my-opencode`; the message for a home directory
/// that cannot be found.
pub fn get_omo_cache_dir(env: &Env) -> (r: Result<String, String>)
    ensures
        match home_spec(*env) {
            Some(h) => r matches Ok(p) && p@ == join_spec(env.windows, join_spec(env.windows, h, ".cache"@), "oh-my-opencode"@),
            None => r matches Err(e) && e@ == "无法获取系统缓存目录"@,
        },
{
    match user_home_dir(env) {
        Ok(h) => {
            proof {
                reveal_strlit("oh-my-opencode");
            }
            let cache = join_path(env.windows, h.as_str(), ".cache");
            Ok(join_path(env.windows, cache.as_str(), OMO_CACHE_DIR_NAME))
        },
        Err(_) => Err(owned("无法获取系统缓存目录")),
    }
}

/// An agent's entry with its model set, and its variant set, removed (`"none"`) or kept
/// (no variant); every other member kept.
pub open spec fn entry_model_set(before: JsonValue, after: JsonValue, model: Seq<char>, variant: Option<Seq<char>>) -> bool {
    &&& after is Object
    &&& text_of(after.field("model"@)) == Some(model)
    &&& match variant {
        Some(v) => if v != "none"@ {
            text_of(after.field("variant"@)) == Some(v)
        } else {
            after.field("variant"@) is None
        },
        None => after.field("variant"@) == before.field("variant"@),
    }
    &&& forall|k: Seq<char>| k != "model"@ && k != "variant"@ ==> #[trigger] after.field(k) == before.field(k)
}

/// A section (`agents` or `categories`) after the update of entry `name`: an object entry
/// is updated, anything else stays as it was.
pub open spec fn section_updated(
    before: JsonValue,
    after: JsonValue,
    name: Seq<char>,
    model: Seq<char>,
    variant: Option<Seq<char>>,
) -> bool {
    match before.field(name) {
        Some(e) => if before is Object && e is Object {
            &&& after is Object
            &&& forall|k: Seq<char>| k != name ==> #[trigger] after.field(k) == before.field(k)
            &&& match after.field(name) {
                Some(e2) => entry_model_set(e, e2, model, variant),
                None => false,
            }
        } else {
            after == before
        },
        None => after == before,
    }
}

/// The configuration after the model of agent or category `name` is set: in `agents` and
/// in `categories`, wherever the name has an object entry.
pub open spec fn agent_updated(
    before: JsonValue,
    after: JsonValue,
    name: Seq<char>,
    model: Seq<char>,
    variant: Option<Seq<char>>,
) -> bool {
    if before is Object {
        &&& after is Object
        &&& forall|k: Seq<char>| k != "agents"@ && k != "categories"@ ==> #[trigger] after.field(k) == before.field(k)
        &&& match before.field("agents"@) {
            Some(s) => after.field("agents"@) matches Some(s2) && section_updated(s, s2, name, model, variant),
            None => after.field("agents"@) is None,
        }
        &&& match before.field("categories"@) {
            Some(s) => after.field("categories"@) matches Some(s2) && section_updated(s, s2, name, model, variant),
            None => after.field("categories"@) is None,
        }
    } else {
        after == before
    }
}

fn set_entry_model(entry: JsonValue, model: &str, variant: Option<&str>) -> (r: JsonValue)
    requires
        entry is Object,
    ensures
        entry_model_set(entry, r, model@, variant.deep_view()),
{
    proof {
        reveal_strlit("model");
        reveal_strlit("variant");
        assert("model"@.len() != "variant"@.len());
    }
    let e0 = entry;
    let ghost g0 = e0;
    let e1 = e0.with_field(owned("model"), JsonValue::Str(owned(model)));
    let e2 = match variant {
        Some(v) => if !str_eq(v, "none") {
            e1.with_field(owned("variant"), JsonValue::Str(owned(v)))
        } else {
            e1.without_field("variant").0
        },
        None => e1,
    };
    proof {
        assert(text_of(e2.field("model"@)) == Some(model@));
        assert forall|k: Seq<char>| k != "model"@ && k != "variant"@ implies #[trigger] e2.field(k) == g0.field(k) by {
            assert(e2.field(k) == e1.field(k));
        }
    }
    e2
}

fn update_section(section: JsonValue, name: &str, model: &str, variant: Option<&str>) -> (r: JsonValue)
    ensures
        section_updated(section, r, name@, model@, variant.deep_view()),
{
    let updatable = section.is_object() && match section.get(name) {
        Some(e) => e.is_object(),
        None => false,
    };
    if !updatable {
        return section;
    }
    let ghost s0 = section;
    let (rest, entry) = section.take_field(name);
    let e2 = set_entry_model(entry, model, variant);
    let r = rest.with_field(name.to_string(), e2);
    proof {
        assert forall|k: Seq<char>| k != name@ implies #[trigger] r.field(k) == s0.field(k) by {
            assert(r.field(k) == rest.field(k));
        }
    }
    r
}

fn update_member(config: JsonValue, key: &str, name: &str, model: &str, variant: Option<&str>) -> (r: JsonValue)
    requires
        config is Object,
    ensures
        r is Object,
        forall|k: Seq<char>| k != key@ ==> #[trigger] r.field(k) == config.field(k),
        match config.field(key@) {
            Some(s) => r.field(key@) matches Some(s2) && section_updated(s, s2, name@, model@, variant.deep_view()),
            None => r.field(key@) is None,
        },
{
    if config.get(key).is_none() {
        return config;
    }
    let ghost c0 = config;
    let (rest, section) = config.take_field(key);
    let s2 = update_section(section, name, model, variant);
    let r = rest.with_field(key.to_string(), s2);
    proof {
        assert forall|k: Seq<char>| k != key@ implies #[trigger] r.field(k) == c0.field(k) by {
            assert(r.field(k) == rest.field(k));
        }
    }
    r
}

/// The configuration with the model (and variant) of an agent or category set, wherever
/// `agents` or `categories` has an object entry of that name.
pub fn update_agent_model(config: JsonValue, agent_name: &str, model: &str, variant: Option<&str>) -> (r: JsonValue)
    ensures
        agent_updated(config, r, agent_name@, model@, variant.deep_view()),
{
    if !config.is_object() {
        return config;
    }
    proof {
        reveal_strlit("agents");
        reveal_strlit("categories");
        assert("agents"@.len() != "categories"@.len());
    }
    let ghost c0 = config;
    let c1 = update_member(config, "agents", agent_name, model, variant);
    let c2 = update_member(c1, "categories", agent_name, model, variant);
    proof {
        assert(c2.field("agents"@) == c1.field("agents"@));
        assert forall|k: Seq<char>| k != "agents"@ && k != "categories"@ implies #[trigger] c2.field(k) == c0.field(k) by {
            assert(c2.field(k) == c1.field(k));
        }
    }
    c2
}

/// `chain` runs from a configuration through each update in turn: each configuration is
/// the one before it with the next update applied.
pub open spec fn update_chain(chain: Seq<JsonValue>, updates: Seq<AgentUpdateRequest>) -> bool {
    &&& chain.len() == updates.len() + 1
    &&& forall|i: int|
        0 <= i < updates.len() ==> agent_updated(
            chain[i],
            #[trigger] chain[i + 1],
            updates[i].agent_name@,
            updates[i].model@,
            updates[i].variant.deep_view(),
        )
}

/// The configuration with every update applied, in order.
pub fn update_agents_batch(config: JsonValue, updates: &Vec<AgentUpdateRequest>) -> (r: JsonValue)
    ensures
        exists|chain: Seq<JsonValue>|
            #[trigger] update_chain(chain, updates@) && chain[0] == config && chain.last() == r,
{
    let ghost c0 = config;
    let mut c = config;
    let ghost mut chain: Seq<JsonValue> = seq![c0];
    let mut i: usize = 0;
    while i < updates.len()
        invariant
            i <= updates.len(),
            update_chain(chain, updates@.take(i as int)),
            chain[0] == c0,
            chain.last() == c,
        decreases updates.len() - i,
    {
        let u = &updates[i];
        let variant = match &u.variant {
            Some(v) => Some(v.as_str()),
            None => None,
        };
        assert(variant.deep_view() == u.variant.deep_view());
        let ghost prev = chain;
        c = update_agent_model(c, u.agent_name.as_str(), u.model.as_str(), variant);
        proof {
            chain = prev.push(c);
            let t = updates@.take(i + 1);
            assert forall|j: int| 0 <= j < t.len() implies agent_updated(
                chain[j],
                #[trigger] chain[j + 1],
                t[j].agent_name@,
                t[j].model@,
                t[j].variant.deep_view(),
            ) by {
                if j < i {
                    assert(t[j] == updates@.take(i as int)[j]);
                    assert(chain[j] == prev[j]);
                    assert(chain[j + 1] == prev[j + 1]);
                } else {
                    assert(t[j] == updates@[i as int]);
                    assert(chain[j] == prev.last());
                }
            }
        }
        i = i + 1;
    }
    assert(updates@.take(updates.len() as int) == updates@);
    c
}

} // verus!
