//! The records of the pipeline: raw listings as each source yields them, and
//! the request and response envelopes of the enrichment provider.

use vstd::prelude::*;
use vstd::string::StringExecFns;

verus! {

/// A raw listing from idealista.
#[derive(Clone, Debug)]
pub struct IdealistaListingRaw {
    pub price: String,
    pub description: Option<String>,
    pub details_split_by_string: String,
    pub url_id: String,
}

/// A raw listing from imovirtual.
#[derive(Clone, Debug)]
pub struct ImovirtualListingRaw {
    pub price: Option<String>,
    pub description: String,
    pub details_split_by_string: Vec<String>,
    pub url_id: String,
}

/// A raw listing from remax.
#[derive(Clone, Debug)]
pub struct RemaxListingRaw {
    pub price: String,
    pub description: String,
    pub details_split_by_string: Vec<String>,
    pub url_id: String,
}

/// A raw listing from supercasa.
#[derive(Clone, Debug)]
pub struct SuperCasasListingRaw {
    pub price: String,
    pub description: Option<String>,
    pub details_split_by_string: Vec<String>,
    pub url_id: String,
}

/// A raw listing from era.
#[derive(Clone, Debug)]
pub struct EraListingRaw {
    pub price: String,
    pub description: Option<String>,
    pub details_split_by_string: Vec<String>,
    pub url_id: String,
}

/// One message of a chat request.
#[derive(Clone, Debug)]
pub struct LLMBodyMessage {
    pub role: String,
    pub content: String,
}

/// A chat request to the enrichment provider.
#[derive(Clone, Debug)]
pub struct LLMRequestBody {
    pub model: String,
    pub messages: Vec<LLMBodyMessage>,
}

/// The message of one choice of a provider response, its content still text.
#[derive(Clone, Debug)]
pub struct LLMMessageResponseRaw {
    pub role: String,
    pub content: String,
}

/// One choice of a provider response.
#[derive(Clone, Debug)]
pub struct LLMResponseChoiceRaw {
    pub logprobs: Option<String>,
    pub finish_reason: String,
    pub index: u32,
    pub message: LLMMessageResponseRaw,
    pub refusal: Option<String>,
}

/// A provider response as it arrives.
#[derive(Clone, Debug)]
pub struct LLMResponseRaw {
    pub id: String,
    pub provider: String,
    pub model: String,
    pub object: String,
    pub created: u32,
    pub choices: Vec<LLMResponseChoiceRaw>,
}

/// The model the requests name.
pub const FREE_LLAMA_MODEL: &'static str = "meta-llama/llama-3.2-3b-instruct:free";

pub const SYSTEM_ROLE: &'static str = "system";

pub const SYSTEM_CONTENT: &'static str = "You are a real estate guru.";

pub const USER_ROLE: &'static str = "user";

/// The instructions sent before each listing.
pub const USER_CONTENT: &'static str = "Based on the following JSON that I will give you in Portuguese from Portugal, only with a JSON with the following properties:
          - url_id
          - no_bedrooms
          - no_bathrooms
          - has_garage
          - has_pool
          - has_good_location
          - location
          - average_price
          - average_sqr_meters
          - average_price_per_sqr_meters
          - sqr_meters
          - price
          - summary
          - score

          The properties should be calculated following these instructions:
          - url_id is extracted from the provided JSON
          - no_bedrooms is extracted from the provided JSON, if its not a number cast it to an integer, not a String
          - no_bathrooms is extracted from the provided JSON, if its not a number cast it to an integer, not a String
          - has_garage is inferred from the provided JSON, if its not a bool cast it to a bool, not a String
          - has_pool is inferred from the provided JSON, if its not a bool cast it to a bool, not a String
          - has_good_location is inferred from the provided JSON, if its not a bool cast it to a bool, not a String
          - location is extracted from the provided JSON
          - average_price is inferred from the real estate market given the specific location in the output JSON without taking the provided JSON into consideration, if its not a number cast it to a number, not a String
          - average_sqr_meters is inferred from the real estate market given the specific location in the output JSON without taking the provided JSON into consideration, if its not a number cast it to a number, not a String
          - average_price_per_sqr_meters is calculated by dividing average_sqr_meters per average_price both in the output JSON, it should be the resulting number not a String
          - sqr_meters is extracted from the provided JSON, if its not a number cast it to a number, not a String
          - price is extracted from the provided JSON, if its not a number give null, not a String
          - summary is a summary of the description and details of the provided JSON, is a String that should not contain more thn 30 characters
          - score is an aggregation of all the features calculated in the JSON outputted excluding the score. It is bounded of a score of 1 being the worst deal possible, and the score of 10 being the deal of a life time. The type should be a float

           Always reply just with a valid Json in English and every information inside the JSON also English, nothing else.
           To be a valid JSON it needs finish with a }.
           Don't add the json block format.

          The provided JSON is :";

/// The request for enriching one listing, given as its JSON text: a system
/// message, then the instructions followed by a line break, a space and the listing.
pub fn to_llm_request_body_json(json: String) -> (r: LLMRequestBody)
    ensures
        r.model@ == FREE_LLAMA_MODEL@,
        r.messages@.len() == 2,
        r.messages@[0].role@ == SYSTEM_ROLE@,
        r.messages@[0].content@ == SYSTEM_CONTENT@,
        r.messages@[1].role@ == USER_ROLE@,
        r.messages@[1].content@ == USER_CONTENT@ + seq!['\n', ' '] + json@,
{
    let mut messages: Vec<LLMBodyMessage> = Vec::new();
    messages.push(
        LLMBodyMessage { role: String::from_str(SYSTEM_ROLE), content: String::from_str(SYSTEM_CONTENT) },
    );
    proof {
        reveal_strlit("\n ");
    }
    let content = String::from_str(USER_CONTENT).concat("\n ").concat(json.as_str());
    messages.push(LLMBodyMessage { role: String::from_str(USER_ROLE), content });
    assert(messages@[1].content@ =~= USER_CONTENT@ + seq!['\n', ' '] + json@);
    LLMRequestBody { model: String::from_str(FREE_LLAMA_MODEL), messages }
}

} // verus!
