//! Flow definitions: one named backend target with its connection
//! parameters, credential field and override tree, and lookup by name.

use vstd::prelude::*;

use crate::errors::ConfigError;
use crate::json::{json_model_of, JsonModel, JsonValue};

verus! {

/// The closed set of backend protocol families.
#[derive(Clone, Copy, PartialEq, Eq, Structural, Debug)]
pub enum Engine {
    Flowise,
    Langflow,
    Webhook,
}

pub open spec fn engine_of_tag(s: Seq<char>) -> Option<Engine> {
    if s == "flowise"@ {
        Some(Engine::Flowise)
    } else if s == "langflow"@ {
        Some(Engine::Langflow)
    } else if s == "webhook"@ {
        Some(Engine::Webhook)
    } else {
        None
    }
}

/// Selects the engine named by a string tag; unknown tags are refused.
pub fn engine_from_tag(tag: &str) -> (r: Option<Engine>)
    ensures
        r == engine_of_tag(tag@),
{
    if crate::text::str_eq(tag, "flowise") {
        Some(Engine::Flowise)
    } else if crate::text::str_eq(tag, "langflow") {
        Some(Engine::Langflow)
    } else if crate::text::str_eq(tag, "webhook") {
        Some(Engine::Webhook)
    } else {
        None
    }
}

/// Mathematical model of one flow definition.
pub ghost struct FlowModel {
    pub name: Seq<char>,
    pub protocol: Seq<char>,
    pub hostname: Seq<char>,
    pub port: u16,
    pub request_path: Seq<char>,
    pub upsert_path: Option<Seq<char>>,
    pub chat_id: Seq<char>,
    pub engine: Engine,
    pub bearer_token: Seq<char>,
    pub override_config: JsonModel,
}

/// One named backend target.
#[derive(Debug)]
pub struct FlowConfig {
    pub name: String,
    pub protocol: String,
    pub hostname: String,
    pub port: u16,
    pub request_path: String,
    pub upsert_path: Option<String>,
    pub chat_id: String,
    pub engine: Engine,
    pub bearer_token: String,
    pub override_config: JsonValue,
}

impl View for FlowConfig {
    type V = FlowModel;

    open spec fn view(&self) -> FlowModel {
        FlowModel {
            name: self.name@,
            protocol: self.protocol@,
            hostname: self.hostname@,
            port: self.port,
            request_path: self.request_path@,
            upsert_path: match self.upsert_path {
                Some(p) => Some(p@),
                None => None,
            },
            chat_id: self.chat_id@,
            engine: self.engine,
            bearer_token: self.bearer_token@,
            override_config: json_model_of(self.override_config),
        }
    }
}

pub open spec fn flow_models(flows: Seq<FlowConfig>) -> Seq<FlowModel> {
    Seq::new(flows.len(), |i: int| flows[i]@)
}

/// The first flow of the given name, if any.
pub open spec fn find_flow(flows: Seq<FlowModel>, name: Seq<char>) -> Option<FlowModel>
    decreases flows.len(),
{
    if flows.len() == 0 {
        None
    } else if flows[0].name == name {
        Some(flows[0])
    } else {
        find_flow(flows.drop_first(), name)
    }
}

/// Looks a flow up by its unique name; every flow name is checked in
/// order and the first match is returned.
#[verifier::loop_isolation(false)]
pub fn find_by_name<'a>(flows: &'a Vec<FlowConfig>, name: &str) -> (r: Result<
    &'a FlowConfig,
    ConfigError,
>)
    ensures
        match r {
            Ok(f) => find_flow(flow_models(flows@), name@) == Some(f@),
            Err(e) => find_flow(flow_models(flows@), name@) is None && e == ConfigError::NotFound,
        },
{
    let ghost models = flow_models(flows@);
    let mut i: usize = 0;
    proof {
        assert(models.subrange(0, models.len() as int) =~= models);
    }
    while i < flows.len()
        invariant
            i <= flows@.len(),
            find_flow(models, name@) == find_flow(
                models.subrange(i as int, models.len() as int),
                name@,
            ),
        decreases flows@.len() - i,
    {
        proof {
            let rest = models.subrange(i as int, models.len() as int);
            assert(rest[0] == models[i as int]);
            assert(rest.drop_first() =~= models.subrange(i as int + 1, models.len() as int));
        }
        if crate::text::str_eq(flows[i].name.as_str(), name) {
            return Ok(&flows[i]);
        }
        i += 1;
    }
    proof {
        assert(models.subrange(models.len() as int, models.len() as int) =~= Seq::<
            FlowModel,
        >::empty());
    }
    Err(ConfigError::NotFound)
}

} // verus!
