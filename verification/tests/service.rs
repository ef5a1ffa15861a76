use rag_engine::service::{
    apply_void_shrine_recentering, chaos_delay, enhance_prompt, estimate_tokens,
    generate_mock_response, wrap_to_u32,
    handle_chaos, handle_moral_recentering, handle_scaling, parse_method, retrieved_summary,
    simulated_response_time, unsupported_method, ChaosResponse, Method, MoralRequest,
    ScalingDecision, ScalingRequest,
};

fn scaling(response_time: Option<u64>) -> ScalingRequest {
    ScalingRequest { agent_id: "agent".to_string(), response_time, token_count: Some(10), success: true }
}

fn moral(framework: &str, void_shrine_context: bool) -> MoralRequest {
    MoralRequest {
        original_prompt: "Do the thing".to_string(),
        specialty: "science".to_string(),
        void_shrine_context,
        ethical_framework: framework.to_string(),
    }
}

#[test]
fn methods_are_told_apart_by_name() {
    assert_eq!(parse_method("llm_inference"), Some(Method::LlmInference));
    assert_eq!(parse_method("rag_query"), Some(Method::RagQuery));
    assert_eq!(parse_method("RAG_QUERY"), None);
    assert_eq!(parse_method(""), None);
    assert_eq!(parse_method("delete_all"), None);
    assert_eq!(unsupported_method("delete_all"), "Unsupported method: delete_all");
}

#[test]
fn a_prompt_is_led_in_by_the_specialty() {
    assert_eq!(
        apply_void_shrine_recentering("plan", "tactical"),
        "From a perspective of strategic care and collective wellbeing: plan"
    );
    assert_eq!(
        apply_void_shrine_recentering("plan", "science"),
        "With rigorous ethical consideration and potential social impact: plan"
    );
    assert_eq!(
        apply_void_shrine_recentering("plan", "engineering"),
        "Prioritizing safety, accessibility, and sustainable design: plan"
    );
    assert_eq!(
        apply_void_shrine_recentering("plan", "creative"),
        "Through a lens of inclusive creativity and cultural sensitivity: plan"
    );
    assert_eq!(
        apply_void_shrine_recentering("plan", "other"),
        "With mindful consideration of all stakeholders: plan"
    );
    assert_eq!(
        apply_void_shrine_recentering("", ""),
        "With mindful consideration of all stakeholders: "
    );
}

#[test]
fn the_stand_in_answer_goes_by_the_specialty() {
    assert!(generate_mock_response("tactical").starts_with("[MCP-Enhanced] Strategic analysis complete."));
    assert!(generate_mock_response("science").starts_with("[MCP-Enhanced] Scientific investigation reveals"));
    assert!(generate_mock_response("engineering").starts_with("[MCP-Enhanced] Technical architecture assessment"));
    assert!(generate_mock_response("creative").starts_with("[MCP-Enhanced] Creative synthesis generates"));
    assert_eq!(
        generate_mock_response("unknown"),
        "[MCP-Enhanced] Comprehensive analysis of the enhanced prompt reveals multiple interconnected factors requiring careful consideration and systematic response strategies."
    );
}

#[test]
fn the_context_is_put_in_front_of_the_prompt() {
    let context = vec!["first".to_string(), "second".to_string(), "third".to_string()];
    assert_eq!(
        enhance_prompt(&context, "ask"),
        "Context from knowledge base:\nfirst\n\nsecond\n\nthird\n\nUser prompt: ask"
    );
    assert_eq!(enhance_prompt(&Vec::new(), "ask"), "Context from knowledge base:\n\n\nUser prompt: ask");
    assert_eq!(
        enhance_prompt(&vec!["only".to_string()], ""),
        "Context from knowledge base:\nonly\n\nUser prompt: "
    );
}

#[test]
fn tokens_are_estimated_from_the_bytes() {
    assert_eq!(estimate_tokens(""), 0);
    assert_eq!(estimate_tokens("abc"), 0);
    assert_eq!(estimate_tokens("abcd"), 1);
    assert_eq!(estimate_tokens("abcdefghijk"), 2);
    assert_eq!(estimate_tokens("\u{e9}\u{e9}"), 1);
    assert_eq!(wrap_to_u32(0), 0);
    assert_eq!(wrap_to_u32(4294967295), 4294967295);
    assert_eq!(wrap_to_u32(4294967296), 0);
    assert_eq!(wrap_to_u32(4294967297), 1);
}

#[test]
fn the_summary_counts_the_documents() {
    assert_eq!(retrieved_summary(0), "Retrieved 0 relevant documents");
    assert_eq!(retrieved_summary(1), "Retrieved 1 relevant documents");
    assert_eq!(retrieved_summary(10), "Retrieved 10 relevant documents");
}

#[test]
fn the_simulated_time_is_between_one_and_six_seconds() {
    assert_eq!(simulated_response_time(0), 1000);
    assert_eq!(simulated_response_time(4999), 5999);
    assert_eq!(simulated_response_time(5000), 1000);
    assert_eq!(simulated_response_time(u64::MAX), u64::MAX % 5000 + 1000);
}

#[test]
fn the_delay_goes_by_the_kind_of_chaos() {
    assert_eq!(chaos_delay("network_delay", 0), 500);
    assert_eq!(chaos_delay("network_delay", 1999), 2499);
    assert_eq!(chaos_delay("network_delay", 2000), 500);
    assert_eq!(chaos_delay("memory_pressure", 0), 200);
    assert_eq!(chaos_delay("memory_pressure", 999), 1199);
    assert_eq!(chaos_delay("resource_contention", 0), 1000);
    assert_eq!(chaos_delay("resource_contention", 2999), 3999);
    assert_eq!(chaos_delay("anything", 0), 300);
    assert_eq!(chaos_delay("anything", 1499), 1799);
    assert_eq!(chaos_delay("", u64::MAX), u64::MAX % 1500 + 300);
}

#[test]
fn chaos_is_applied_only_when_enabled_and_drawn() {
    let off: ChaosResponse = handle_chaos(false, true, "network_delay", 7);
    assert!(!off.apply_chaos);
    assert_eq!(off.effect, "Chaos engineering disabled");
    assert_eq!(off.delay_ms, 0);
    let spared = handle_chaos(true, false, "network_delay", 7);
    assert!(!spared.apply_chaos);
    assert_eq!(spared.effect, "No chaos applied this cycle");
    assert_eq!(spared.delay_ms, 0);
    let hit = handle_chaos(true, true, "network_delay", 7);
    assert!(hit.apply_chaos);
    assert_eq!(hit.effect, "network_delay chaos applied");
    assert_eq!(hit.delay_ms, 507);
    let odd = handle_chaos(true, true, "gremlins", 1501);
    assert_eq!(odd.effect, "gremlins chaos applied");
    assert_eq!(odd.delay_ms, 301);
}

#[test]
fn scaling_goes_by_the_response_time() {
    assert_eq!(handle_scaling(&scaling(None)), ScalingDecision::Hold);
    assert_eq!(handle_scaling(&scaling(Some(0))), ScalingDecision::ScaleDown);
    assert_eq!(handle_scaling(&scaling(Some(999))), ScalingDecision::ScaleDown);
    assert_eq!(handle_scaling(&scaling(Some(1000))), ScalingDecision::Hold);
    assert_eq!(handle_scaling(&scaling(Some(10000))), ScalingDecision::Hold);
    assert_eq!(handle_scaling(&scaling(Some(10001))), ScalingDecision::ScaleUp);
    assert_eq!(handle_scaling(&scaling(Some(u64::MAX))), ScalingDecision::ScaleUp);
}

#[test]
fn a_scaling_decision_says_what_it_changes() {
    assert_eq!(ScalingDecision::ScaleUp.description(), "Scaling up due to high latency");
    assert_eq!(ScalingDecision::ScaleUp.capacity_change_percent(), 20);
    assert_eq!(ScalingDecision::ScaleUp.priority_adjustment(), 1);
    assert_eq!(ScalingDecision::ScaleDown.description(), "Can scale down - response time optimal");
    assert_eq!(ScalingDecision::ScaleDown.capacity_change_percent(), -10);
    assert_eq!(ScalingDecision::ScaleDown.priority_adjustment(), -1);
    assert_eq!(ScalingDecision::Hold.description(), "No adjustments needed");
    assert_eq!(ScalingDecision::Hold.capacity_change_percent(), 0);
    assert_eq!(ScalingDecision::Hold.priority_adjustment(), 0);
}

#[test]
fn a_prompt_is_framed_as_the_request_asks() {
    let plain = handle_moral_recentering(&moral("utilitarian", false));
    assert_eq!(plain.recentered_prompt, "Do the thing");
    assert!(plain.ethical_adjustments.is_empty());

    let care = handle_moral_recentering(&moral("care-ethics", false));
    assert_eq!(
        care.recentered_prompt,
        "Considering the wellbeing and agency of all affected parties: Do the thing"
    );
    assert_eq!(
        care.ethical_adjustments,
        vec!["Applied care ethics perspective", "Considered relational impact on all stakeholders"]
    );

    let void = handle_moral_recentering(&moral("none", true));
    assert_eq!(
        void.recentered_prompt,
        "Through the lens of generative absence and emergent intelligence: Do the thing"
    );
    assert_eq!(
        void.ethical_adjustments,
        vec!["Integrated void shrine ontological perspective", "Emphasized emergence over rigid control"]
    );

    let both = handle_moral_recentering(&moral("care-ethics", true));
    assert_eq!(
        both.recentered_prompt,
        "Through the lens of generative absence and emergent intelligence: Considering the wellbeing and agency of all affected parties: Do the thing"
    );
    assert_eq!(
        both.ethical_adjustments,
        vec![
            "Applied care ethics perspective",
            "Considered relational impact on all stakeholders",
            "Integrated void shrine ontological perspective",
            "Emphasized emergence over rigid control",
        ]
    );
}
