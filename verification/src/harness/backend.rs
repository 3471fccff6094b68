//! A mock backend: what it serves, and what it records.

use vstd::prelude::*;
use vstd::string::*;
use crate::json::Json;
use super::types::{BackendState, MockResponse, ReceivedRequest};

verus! {

broadcast use vstd::string::group_string_axioms;

/// What the backend says of its slots.
pub fn default_slots_response() -> (body: &'static str)
    ensures
        body@
            == "[{\"id\":0,\"model\":\"test-model\",\"n_ctx\":8192,\"n_tokens\":0,\"is_processing\":false,\"params\":{\"n_predict\":4096}}]"@,
{
    "[{\"id\":0,\"model\":\"test-model\",\"n_ctx\":8192,\"n_tokens\":0,\"is_processing\":false,\"params\":{\"n_predict\":4096}}]"
}

/// Whether a response is the one to a completion for which none is queued.
pub open spec fn is_default_completion(r: MockResponse) -> bool {
    &&& r.status == 200
    &&& r.delay_ms == 0
    &&& r.content_type@ == "application/json"@
    &&& r.body@
        == "{\"id\":\"chatcmpl-default\",\"object\":\"chat.completion\",\"created\":1700000000,\"model\":\"test-model\",\"choices\":[{\"index\":0,\"message\":{\"role\":\"assistant\",\"content\":\"Default response (no mock queued)\"},\"finish_reason\":\"stop\"}],\"usage\":{\"prompt_tokens\":10,\"completion_tokens\":5,\"total_tokens\":15}}"@
}

/// What the backend answers to a completion for which no response is queued.
pub fn default_completion_response() -> (r: MockResponse)
    ensures
        is_default_completion(r),
{
    MockResponse::json(
        "{\"id\":\"chatcmpl-default\",\"object\":\"chat.completion\",\"created\":1700000000,\"model\":\"test-model\",\"choices\":[{\"index\":0,\"message\":{\"role\":\"assistant\",\"content\":\"Default response (no mock queued)\"},\"finish_reason\":\"stop\"}],\"usage\":{\"prompt_tokens\":10,\"completion_tokens\":5,\"total_tokens\":15}}",
    )
}

/// Records a request.
pub fn record_request(state: &mut BackendState, method: String, path: String, body: Json)
    ensures
        *final(state) == (BackendState { received_requests: final(state).received_requests, ..*old(state) }),
        final(state).received_requests@ == old(state).received_requests@.push(ReceivedRequest { method, path, body }),
{
    state.received_requests.push(ReceivedRequest { method, path, body });
}

/// Records a completion and takes the response to it: the one that is queued
/// first, or the default.
pub fn answer_completion(state: &mut BackendState, body: Json) -> (r: MockResponse)
    ensures
        final(state).received_requests@.len() == old(state).received_requests@.len() + 1,
        final(state).received_requests@.drop_last() == old(state).received_requests@,
        final(state).received_requests@.last().method@ == "POST"@,
        final(state).received_requests@.last().path@ == "/v1/chat/completions"@,
        final(state).received_requests@.last().body == body,
        if old(state).response_queue@.len() > 0 {
            &&& r == old(state).response_queue@[0]
            &&& final(state).response_queue@ == old(state).response_queue@.drop_first()
        } else {
            &&& is_default_completion(r)
            &&& final(state).response_queue@ == old(state).response_queue@
        },
        *final(state) == (BackendState {
            received_requests: final(state).received_requests,
            response_queue: final(state).response_queue,
            ..*old(state)
        }),
{
    record_request(state, "POST".to_owned(), "/v1/chat/completions".to_owned(), body);
    proof {
        assert(state.received_requests@.drop_last() =~= old(state).received_requests@);
    }
    match state.response_queue.pop_front() {
        Some(r) => {
            proof {
                assert(state.response_queue@ =~= old(state).response_queue@.drop_first());
            }
            r
        },
        None => default_completion_response(),
    }
}

/// Queues a response behind the others.
pub fn queue_response(state: &mut BackendState, response: MockResponse)
    ensures
        final(state).response_queue@ == old(state).response_queue@.push(response),
        *final(state) == (BackendState { response_queue: final(state).response_queue, ..*old(state) }),
{
    state.response_queue.push_back(response);
}

/// Drops every response that is queued.
pub fn clear_queued_responses(state: &mut BackendState)
    ensures
        final(state).response_queue@ == Seq::<MockResponse>::empty(),
        *final(state) == (BackendState { response_queue: final(state).response_queue, ..*old(state) }),
{
    state.response_queue.clear();
}

/// Takes every request that was recorded.
pub fn drain_requests(state: &mut BackendState) -> (requests: Vec<ReceivedRequest>)
    ensures
        requests@ == old(state).received_requests@,
        final(state).received_requests@ == Seq::<ReceivedRequest>::empty(),
        *final(state) == (BackendState { received_requests: final(state).received_requests, ..*old(state) }),
{
    let mut requests: Vec<ReceivedRequest> = Vec::new();
    requests.append(&mut state.received_requests);
    proof {
        assert(requests@ =~= old(state).received_requests@);
        assert(state.received_requests@ =~= Seq::<ReceivedRequest>::empty());
    }
    requests
}

/// Forgets every request that was recorded.
pub fn clear_requests(state: &mut BackendState)
    ensures
        final(state).received_requests@ == Seq::<ReceivedRequest>::empty(),
        *final(state) == (BackendState { received_requests: final(state).received_requests, ..*old(state) }),
{
    state.received_requests.clear();
}

/// Sets what is served of the properties.
pub fn set_props_body(state: &mut BackendState, body: &str)
    ensures
        final(state).props_body@ == body@,
        *final(state) == (BackendState { props_body: final(state).props_body, ..*old(state) }),
{
    state.props_body = body.to_owned();
}

/// Sets what is served of the models.
pub fn set_models_body(state: &mut BackendState, body: &str)
    ensures
        final(state).models_body@ == body@,
        *final(state) == (BackendState { models_body: final(state).models_body, ..*old(state) }),
{
    state.models_body = body.to_owned();
}

/// Sets what is served of the metrics.
pub fn set_metrics_body(state: &mut BackendState, body: &str)
    ensures
        final(state).metrics_body@ == body@,
        *final(state) == (BackendState { metrics_body: final(state).metrics_body, ..*old(state) }),
{
    state.metrics_body = body.to_owned();
}

/// Serves models as a vLLM backend does, with their context.
pub fn install_vllm_models(state: &mut BackendState)
    ensures
        final(state).models_body@
            == "{\"object\":\"list\",\"data\":[{\"id\":\"test-model\",\"object\":\"model\",\"created\":1700000000,\"owned_by\":\"vllm\",\"max_model_len\":262144}]}"@,
        *final(state) == (BackendState { models_body: final(state).models_body, ..*old(state) }),
{
    set_models_body(
        state,
        "{\"object\":\"list\",\"data\":[{\"id\":\"test-model\",\"object\":\"model\",\"created\":1700000000,\"owned_by\":\"vllm\",\"max_model_len\":262144}]}",
    );
}

/// Serves properties without a context.
pub fn install_props_without_context(state: &mut BackendState)
    ensures
        final(state).props_body@
            == "{\"model_path\":\"/models/test-model.gguf\",\"build_info\":{\"version\":\"b3000\"}}"@,
        *final(state) == (BackendState { props_body: final(state).props_body, ..*old(state) }),
{
    set_props_body(state, "{\"model_path\":\"/models/test-model.gguf\",\"build_info\":{\"version\":\"b3000\"}}");
}

/// Serves metrics as a vLLM backend does, with its cache.
pub fn install_vllm_metrics(state: &mut BackendState)
    ensures
        final(state).metrics_body@
            == "# HELP vllm:cache_config_info Information about the KV cache configuration\n# TYPE vllm:cache_config_info gauge\nvllm:cache_config_info{block_size=\"16\",cache_dtype=\"auto\",engine=\"0\",gpu_memory_utilization=\"0.9\",kv_cache_size_tokens=\"81280\",kv_cache_max_concurrency=\"42\",enable_prefix_caching=\"True\",num_gpu_blocks=\"5080\"} 1\n"@,
        *final(state) == (BackendState { metrics_body: final(state).metrics_body, ..*old(state) }),
{
    set_metrics_body(
        state,
        "# HELP vllm:cache_config_info Information about the KV cache configuration\n# TYPE vllm:cache_config_info gauge\nvllm:cache_config_info{block_size=\"16\",cache_dtype=\"auto\",engine=\"0\",gpu_memory_utilization=\"0.9\",kv_cache_size_tokens=\"81280\",kv_cache_max_concurrency=\"42\",enable_prefix_caching=\"True\",num_gpu_blocks=\"5080\"} 1\n",
    );
}

} // verus!
