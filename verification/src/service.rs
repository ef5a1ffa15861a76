//! The rules of the request service that stands in front of the engine:
//! which method a request names, how a prompt is framed, what a chaos draw
//! or a response time leads to. Drawing numbers, reading clocks and talking
//! to the network are the caller's part.

use crate::text::{decimal, push_decimal, same_text};
use vstd::prelude::*;
use vstd::string::*;

verus! {

/// The answer to a request for chaos.
#[derive(Debug)]
pub struct ChaosResponse {
    pub apply_chaos: bool,
    pub effect: String,
    pub delay_ms: u64,
}

/// A request to frame a prompt with care for those it touches.
#[derive(Debug)]
pub struct MoralRequest {
    pub original_prompt: String,
    pub specialty: String,
    pub void_shrine_context: bool,
    pub ethical_framework: String,
}

/// What an agent reports of its last request.
#[derive(Debug)]
pub struct ScalingRequest {
    pub agent_id: String,
    pub response_time: Option<u64>,
    pub token_count: Option<u32>,
    pub success: bool,
}

/// The methods that a request can name.
#[derive(Debug, Clone, Copy, PartialEq, Eq, Structural)]
pub enum Method {
    LlmInference,
    RagQuery,
}

/// The method that a name stands for.
pub open spec fn method_named(name: Seq<char>) -> Option<Method> {
    if name == "llm_inference"@ {
        Some(Method::LlmInference)
    } else if name == "rag_query"@ {
        Some(Method::RagQuery)
    } else {
        None
    }
}

/// The method that `name` names, if it names one.
pub fn parse_method(name: &str) -> (m: Option<Method>)
    ensures
        m == method_named(name@),
{
    if same_text(name, "llm_inference") {
        Some(Method::LlmInference)
    } else if same_text(name, "rag_query") {
        Some(Method::RagQuery)
    } else {
        None
    }
}

/// What is said of a method that is not offered.
pub fn unsupported_method(name: &str) -> (r: String)
    ensures
        r@ == "Unsupported method: "@ + name@,
{
    let mut r = "Unsupported method: ".to_owned();
    r.append(name);
    r
}

/// The lead-in for a tactical agent.
pub const CARE_TACTICAL: &'static str =
    "From a perspective of strategic care and collective wellbeing: ";

/// The lead-in for an agent of science.
pub const CARE_SCIENCE: &'static str =
    "With rigorous ethical consideration and potential social impact: ";

/// The lead-in for an engineering agent.
pub const CARE_ENGINEERING: &'static str =
    "Prioritizing safety, accessibility, and sustainable design: ";

/// The lead-in for a creative agent.
pub const CARE_CREATIVE: &'static str =
    "Through a lens of inclusive creativity and cultural sensitivity: ";

/// The lead-in for any other agent.
pub const CARE_GENERAL: &'static str = "With mindful consideration of all stakeholders: ";

/// The stand-in answer of a tactical agent.
pub const ANSWER_TACTICAL: &'static str =
    "Strategic analysis complete. Based on the enhanced prompt context, I recommend a multi-phase approach prioritizing stakeholder care and systemic resilience. Key considerations include resource optimization, risk mitigation, and sustainable implementation pathways.";

/// The stand-in answer of an agent of science.
pub const ANSWER_SCIENCE: &'static str =
    "Scientific investigation reveals interesting patterns in the provided context. The data suggests correlations that warrant deeper analysis through both quantitative metrics and qualitative assessment of broader implications.";

/// The stand-in answer of an engineering agent.
pub const ANSWER_ENGINEERING: &'static str =
    "Technical architecture assessment indicates optimal solutions through modular, fault-tolerant design principles. Recommended implementation emphasizes scalability, maintainability, and ethical computing practices.";

/// The stand-in answer of a creative agent.
pub const ANSWER_CREATIVE: &'static str =
    "Creative synthesis generates novel approaches by combining contextual insights with innovative methodologies. The solution space includes unexplored opportunities for user-centered, aesthetically coherent implementations.";

/// The stand-in answer of any other agent.
pub const ANSWER_GENERAL: &'static str =
    "Comprehensive analysis of the enhanced prompt reveals multiple interconnected factors requiring careful consideration and systematic response strategies.";

/// The frame of care ethics.
pub const FRAME_OF_CARE: &'static str =
    "Considering the wellbeing and agency of all affected parties: ";

/// The frame of the void shrine.
pub const FRAME_OF_THE_VOID: &'static str =
    "Through the lens of generative absence and emergent intelligence: ";

/// The words that a prompt is led in with, by the specialty of the agent.
pub open spec fn care_prefix(specialty: Seq<char>) -> Seq<char> {
    if specialty == "tactical"@ {
        CARE_TACTICAL@
    } else if specialty == "science"@ {
        CARE_SCIENCE@
    } else if specialty == "engineering"@ {
        CARE_ENGINEERING@
    } else if specialty == "creative"@ {
        CARE_CREATIVE@
    } else {
        CARE_GENERAL@
    }
}

/// The prompt behind the lead-in of the specialty.
pub fn apply_void_shrine_recentering(prompt: &str, specialty: &str) -> (r: String)
    ensures
        r@ == care_prefix(specialty@) + prompt@,
{
    let prefix = if same_text(specialty, "tactical") {
        CARE_TACTICAL
    } else if same_text(specialty, "science") {
        CARE_SCIENCE
    } else if same_text(specialty, "engineering") {
        CARE_ENGINEERING
    } else if same_text(specialty, "creative") {
        CARE_CREATIVE
    } else {
        CARE_GENERAL
    };
    let mut r = prefix.to_owned();
    r.append(prompt);
    r
}

/// The stand-in answer of an agent, by its specialty.
pub open spec fn mock_answer(specialty: Seq<char>) -> Seq<char> {
    if specialty == "tactical"@ {
        ANSWER_TACTICAL@
    } else if specialty == "science"@ {
        ANSWER_SCIENCE@
    } else if specialty == "engineering"@ {
        ANSWER_ENGINEERING@
    } else if specialty == "creative"@ {
        ANSWER_CREATIVE@
    } else {
        ANSWER_GENERAL@
    }
}

/// The stand-in answer of an agent with the given specialty.
pub fn generate_mock_response(specialty: &str) -> (r: String)
    ensures
        r@ == "[MCP-Enhanced] "@ + mock_answer(specialty@),
{
    let base = if same_text(specialty, "tactical") {
        ANSWER_TACTICAL
    } else if same_text(specialty, "science") {
        ANSWER_SCIENCE
    } else if same_text(specialty, "engineering") {
        ANSWER_ENGINEERING
    } else if same_text(specialty, "creative") {
        ANSWER_CREATIVE
    } else {
        ANSWER_GENERAL
    };
    let mut r = "[MCP-Enhanced] ".to_owned();
    r.append(base);
    r
}

/// The passages one after the other, an empty line between two of them.
pub open spec fn joined(passages: Seq<Seq<char>>) -> Seq<char>
    decreases passages.len(),
{
    if passages.len() == 0 {
        Seq::empty()
    } else if passages.len() == 1 {
        passages[0]
    } else {
        joined(passages.drop_last()) + "\n\n"@ + passages.last()
    }
}

/// The strings as sequences of characters.
pub open spec fn texts(v: Seq<String>) -> Seq<Seq<char>> {
    v.map_values(|s: String| s@)
}

/// The prompt with what the knowledge base gave for it put in front.
pub fn enhance_prompt(context: &Vec<String>, prompt: &str) -> (r: String)
    ensures
        r@ == "Context from knowledge base:\n"@ + joined(texts(context@)) + "\n\nUser prompt: "@
            + prompt@,
{
    let mut body = String::new();
    let mut i: usize = 0;
    while i < context.len()
        invariant
            i <= context.len(),
            body@ == joined(texts(context@).take(i as int)),
        decreases context.len() - i,
    {
        let ghost after = texts(context@).take(i + 1);
        assert(after.drop_last() == texts(context@).take(i as int));
        assert(after.last() == context[i as int]@);
        if i > 0 {
            body.append("\n\n");
        } else {
            assert(after[0] == context[0]@);
        }
        body.append(context[i].as_str());
        i += 1;
    }
    assert(texts(context@).take(context.len() as int) == texts(context@));
    let mut r = "Context from knowledge base:\n".to_owned();
    r.append(body.as_str());
    r.append("\n\nUser prompt: ");
    r.append(prompt);
    r
}

/// `n` as a `u32`, the bits beyond the 32 lowest cut off.
pub fn wrap_to_u32(n: usize) -> (r: u32)
    ensures
        r == (n as int) % 0x1_0000_0000,
{
    let wide: u64 = n as u64;
    (wide % 0x1_0000_0000) as u32
}

/// A rough count of the tokens of a prompt: a quarter of its length in
/// bytes, cut to a `u32`.
pub fn estimate_tokens(prompt: &str) -> (r: u32)
    ensures
        r == ((prompt.len() / 4) as int) % 0x1_0000_0000,
{
    wrap_to_u32(prompt.len() / 4)
}

/// How many documents a query has brought, in words.
pub fn retrieved_summary(count: usize) -> (r: String)
    ensures
        r@ == "Retrieved "@ + decimal(count as nat) + " relevant documents"@,
{
    let mut r = "Retrieved ".to_owned();
    push_decimal(&mut r, count);
    r.append(" relevant documents");
    r
}

/// The time, in milliseconds, that a stand-in answer is said to have
/// taken: between one and six seconds, by the number drawn.
pub fn simulated_response_time(draw: u64) -> (ms: u64)
    ensures
        ms == draw % 5000 + 1000,
{
    draw % 5000 + 1000
}

/// The delay, in milliseconds, that chaos of the given kind brings for the
/// number drawn.
pub open spec fn chaos_delay_for(chaos_type: Seq<char>, draw: u64) -> int {
    if chaos_type == "network_delay"@ {
        draw % 2000 + 500
    } else if chaos_type == "memory_pressure"@ {
        draw % 1000 + 200
    } else if chaos_type == "resource_contention"@ {
        draw % 3000 + 1000
    } else {
        draw % 1500 + 300
    }
}

/// The delay that chaos of the given kind brings for the number drawn.
pub fn chaos_delay(chaos_type: &str, draw: u64) -> (ms: u64)
    ensures
        ms == chaos_delay_for(chaos_type@, draw),
{
    if same_text(chaos_type, "network_delay") {
        draw % 2000 + 500
    } else if same_text(chaos_type, "memory_pressure") {
        draw % 1000 + 200
    } else if same_text(chaos_type, "resource_contention") {
        draw % 3000 + 1000
    } else {
        draw % 1500 + 300
    }
}

/// The answer to a request for chaos of the given kind: none where chaos
/// is switched off or the draw went against it; else the delay that the
/// second draw brings.
pub fn handle_chaos(enabled: bool, applies: bool, chaos_type: &str, draw: u64) -> (r: ChaosResponse)
    ensures
        r.apply_chaos == (enabled && applies),
        r.delay_ms == if enabled && applies {
            chaos_delay_for(chaos_type@, draw)
        } else {
            0
        },
        r.effect@ == if !enabled {
            "Chaos engineering disabled"@
        } else if applies {
            chaos_type@ + " chaos applied"@
        } else {
            "No chaos applied this cycle"@
        },
{
    if !enabled {
        ChaosResponse {
            apply_chaos: false,
            effect: "Chaos engineering disabled".to_owned(),
            delay_ms: 0,
        }
    } else if applies {
        let mut effect = chaos_type.to_owned();
        effect.append(" chaos applied");
        ChaosResponse { apply_chaos: true, effect, delay_ms: chaos_delay(chaos_type, draw) }
    } else {
        ChaosResponse {
            apply_chaos: false,
            effect: "No chaos applied this cycle".to_owned(),
            delay_ms: 0,
        }
    }
}

/// What a response time calls for.
#[derive(Debug, Clone, Copy, PartialEq, Eq, Structural)]
pub enum ScalingDecision {
    /// More than ten seconds: more capacity.
    ScaleUp,
    /// Less than one second: capacity to spare.
    ScaleDown,
    /// Nothing to change.
    Hold,
}

/// What a response time, in milliseconds, calls for.
pub open spec fn scaling_for(response_time: Option<u64>) -> ScalingDecision {
    match response_time {
        Some(t) => if t > 10000 {
            ScalingDecision::ScaleUp
        } else if t < 1000 {
            ScalingDecision::ScaleDown
        } else {
            ScalingDecision::Hold
        },
        None => ScalingDecision::Hold,
    }
}

/// What the response time of a request calls for.
pub fn handle_scaling(request: &ScalingRequest) -> (d: ScalingDecision)
    ensures
        d == scaling_for(request.response_time),
{
    match request.response_time {
        Some(t) => if t > 10000 {
            ScalingDecision::ScaleUp
        } else if t < 1000 {
            ScalingDecision::ScaleDown
        } else {
            ScalingDecision::Hold
        },
        None => ScalingDecision::Hold,
    }
}

impl ScalingDecision {
    /// The decision in words.
    pub open spec fn description_text(self) -> Seq<char> {
        match self {
            ScalingDecision::ScaleUp => "Scaling up due to high latency"@,
            ScalingDecision::ScaleDown => "Can scale down - response time optimal"@,
            ScalingDecision::Hold => "No adjustments needed"@,
        }
    }

    /// The decision in words.
    pub fn description(&self) -> (r: String)
        ensures
            r@ == self.description_text(),
    {
        match self {
            ScalingDecision::ScaleUp => "Scaling up due to high latency".to_owned(),
            ScalingDecision::ScaleDown => "Can scale down - response time optimal".to_owned(),
            ScalingDecision::Hold => "No adjustments needed".to_owned(),
        }
    }

    /// The change of capacity, in hundredths of the capacity there is.
    pub fn capacity_change_percent(&self) -> (r: i32)
        ensures
            r == match *self {
                ScalingDecision::ScaleUp => 20int,
                ScalingDecision::ScaleDown => -10int,
                ScalingDecision::Hold => 0int,
            },
    {
        match self {
            ScalingDecision::ScaleUp => 20,
            ScalingDecision::ScaleDown => -10,
            ScalingDecision::Hold => 0,
        }
    }

    /// The change of priority: one up, one down or none.
    pub fn priority_adjustment(&self) -> (r: i32)
        ensures
            r == match *self {
                ScalingDecision::ScaleUp => 1int,
                ScalingDecision::ScaleDown => -1int,
                ScalingDecision::Hold => 0int,
            },
    {
        match self {
            ScalingDecision::ScaleUp => 1,
            ScalingDecision::ScaleDown => -1,
            ScalingDecision::Hold => 0,
        }
    }
}

/// A prompt framed anew and what was done to it.
#[derive(Debug)]
pub struct Recentering {
    pub recentered_prompt: String,
    pub ethical_adjustments: Vec<String>,
}

/// Whether the request asks for the frame of care ethics.
pub open spec fn asks_for_care(request: MoralRequest) -> bool {
    request.ethical_framework@ == "care-ethics"@
}

/// The prompt of the request behind the frames it asks for: the frame of
/// the void outermost, that of care within.
pub open spec fn recentered_text(request: MoralRequest) -> Seq<char> {
    let inner = if asks_for_care(request) {
        FRAME_OF_CARE@
            + request.original_prompt@
    } else {
        request.original_prompt@
    };
    if request.void_shrine_context {
        FRAME_OF_THE_VOID@ + inner
    } else {
        inner
    }
}

/// What is noted of the frames: two lines for care, then two for the void.
pub open spec fn adjustment_texts(request: MoralRequest) -> Seq<Seq<char>> {
    let care = if asks_for_care(request) {
        seq![
            "Applied care ethics perspective"@,
            "Considered relational impact on all stakeholders"@,
        ]
    } else {
        Seq::empty()
    };
    if request.void_shrine_context {
        care + seq![
            "Integrated void shrine ontological perspective"@,
            "Emphasized emergence over rigid control"@,
        ]
    } else {
        care
    }
}

/// Frames the prompt of the request as the request asks.
pub fn handle_moral_recentering(request: &MoralRequest) -> (r: Recentering)
    ensures
        r.recentered_prompt@ == recentered_text(*request),
        texts(r.ethical_adjustments@) == adjustment_texts(*request),
{
    let mut adjustments: Vec<String> = Vec::new();
    let mut prompt = String::new();
    if request.void_shrine_context {
        prompt.append(FRAME_OF_THE_VOID);
    }
    if same_text(request.ethical_framework.as_str(), "care-ethics") {
        adjustments.push("Applied care ethics perspective".to_owned());
        adjustments.push("Considered relational impact on all stakeholders".to_owned());
        prompt.append(FRAME_OF_CARE);
    }
    if request.void_shrine_context {
        adjustments.push("Integrated void shrine ontological perspective".to_owned());
        adjustments.push("Emphasized emergence over rigid control".to_owned());
    }
    prompt.append(request.original_prompt.as_str());
    assert(prompt@ =~= recentered_text(*request));
    assert(texts(adjustments@) =~= adjustment_texts(*request));
    Recentering { recentered_prompt: prompt, ethical_adjustments: adjustments }
}

} // verus!
