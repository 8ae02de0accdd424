//! Tag generation against the hosted language model: the request and
//! response shapes, the prompt, and the parsing of the model's answer into
//! clean tags. The network call itself is a collaborator.

use vstd::prelude::*;

use crate::text::lowercase_of;
use crate::text::seq_utf8_len;
use crate::text::spec_comma_fields;
use crate::text::spec_trim;
use crate::text::comma_fields;
use crate::text::to_lowercase;
use crate::text::trim_str;
use crate::text::utf8_len_at_most;

verus! {

/// A request to suggest tags for a document.
pub struct GenerateTagsRequest {
    pub title: String,
    pub content: String,
}

/// The outbound payload of the language-model call.
pub struct GeminiRequest {
    pub contents: Vec<GeminiContent>,
}

/// One turn of content in the outbound payload.
pub struct GeminiContent {
    pub parts: Vec<GeminiPart>,
}

/// One text part of a turn.
pub struct GeminiPart {
    pub text: String,
}

/// The inbound payload of the language-model call.
pub struct GeminiResponse {
    pub candidates: Option<Vec<GeminiCandidate>>,
    pub error: Option<GeminiError>,
}

/// One candidate answer.
pub struct GeminiCandidate {
    pub content: GeminiContentResponse,
}

/// The content of a candidate answer.
pub struct GeminiContentResponse {
    pub parts: Vec<GeminiPartResponse>,
}

/// One text part of a candidate answer.
pub struct GeminiPartResponse {
    pub text: String,
}

/// An error the service reported in-band.
pub struct GeminiError {
    pub message: String,
}

/// What can go wrong while generating tags.
#[derive(Debug)]
pub enum AiError {
    ApiKeyNotConfigured,
    ConfigLoadFailed(String),
    HttpRequestFailed(String),
    ResponseParseFailed(String),
    ApiError(String),
}

/// The instruction block that precedes the document title.
pub const PROMPT_PREFIX: &'static str = "Generate 3-5 relevant tags for the following document.\nReturn ONLY the tags as a comma-separated list, nothing else.\nTags should be lowercase, single words or short phrases (2-3 words max).\nDo not include hashtags or any other formatting.\n\nTitle: ";

/// The bridge between the title and the content.
pub const PROMPT_MIDDLE: &'static str = "\n\nContent:\n";

/// The cue that asks for the answer.
pub const PROMPT_SUFFIX: &'static str = "\n\nTags:";

/// The full prompt for a document: instructions, title, content, cue.
pub fn build_prompt(title: &str, content: &str) -> (r: String)
    ensures
        r@ == PROMPT_PREFIX@ + title@ + PROMPT_MIDDLE@ + content@ + PROMPT_SUFFIX@,
{
    let mut r = String::from_str(PROMPT_PREFIX);
    r.append(title);
    r.append(PROMPT_MIDDLE);
    r.append(content);
    r.append(PROMPT_SUFFIX);
    r
}

/// Whether a cleaned tag is kept: non-empty and at most thirty bytes.
pub open spec fn keeps_tag(t: Seq<char>) -> bool {
    t.len() > 0 && seq_utf8_len(t) <= 30
}

/// Each comma field, trimmed and lowercased, kept when non-empty and not
/// overlong.
pub open spec fn spec_cleaned_tags(fields: Seq<Seq<char>>) -> Seq<Seq<char>>
    decreases fields.len(),
{
    if fields.len() == 0 {
        Seq::empty()
    } else {
        let prev = spec_cleaned_tags(fields.drop_last());
        let t = lowercase_of(spec_trim(fields.last()));
        if keeps_tag(t) {
            prev.push(t)
        } else {
            prev
        }
    }
}

/// The tags parsed from a model answer: comma fields, trimmed, lowercased,
/// empty and overlong ones dropped, at most five kept.
pub open spec fn spec_parse_tags(s: Seq<char>) -> Seq<Seq<char>> {
    let cleaned = spec_cleaned_tags(spec_comma_fields(s));
    if cleaned.len() <= 5 {
        cleaned
    } else {
        cleaned.take(5)
    }
}

/// Parse the model's comma-separated answer into at most five clean tags.
pub fn parse_tags(text: &str) -> (tags: Vec<String>)
    ensures
        tags@.map_values(|t: String| t@) == spec_parse_tags(text@),
{
    let fields = comma_fields(text);
    let ghost field_views = spec_comma_fields(text@);
    let mut tags: Vec<String> = Vec::new();
    let n: usize = fields.len();
    let mut i: usize = 0;
    proof {
        assert(field_views.take(0) =~= Seq::<Seq<char>>::empty());
    }
    while i < n
        invariant
            i <= n,
            n == fields@.len(),
            field_views == spec_comma_fields(text@),
            fields@.map_values(|f: String| f@) == field_views,
            ({
                let cleaned = spec_cleaned_tags(field_views.take(i as int));
                tags@.map_values(|t: String| t@) == if cleaned.len() <= 5 {
                    cleaned
                } else {
                    cleaned.take(5)
                }
            }),
            tags@.len() <= 5,
            tags@.len() < spec_cleaned_tags(field_views.take(i as int)).len() ==> tags@.len()
                == 5,
        decreases n - i,
    {
        proof {
            assert(field_views.take(i as int + 1).drop_last() =~= field_views.take(i as int));
            assert(field_views.take(i as int + 1).last() == field_views[i as int]);
            assert(fields@.map_values(|f: String| f@)[i as int] == fields@[i as int]@);
        }
        let trimmed = trim_str(fields[i].as_str());
        let lowered = to_lowercase(trimmed);
        let keep = !lowered.as_str().is_empty() && utf8_len_at_most(lowered.as_str(), 30);
        proof {
            assert(lowered@ == lowercase_of(spec_trim(field_views[i as int])));
            assert(keep == keeps_tag(lowered@));
        }
        if keep && tags.len() < 5 {
            proof {
                assert((tags@.push(lowered)).map_values(|t: String| t@) =~= tags@.map_values(
                    |t: String| t@,
                ).push(lowered@));
                let cleaned = spec_cleaned_tags(field_views.take(i as int));
                let cleaned2 = spec_cleaned_tags(field_views.take(i as int + 1));
                assert(cleaned2 == cleaned.push(lowered@));
                if cleaned2.len() <= 5 {
                    assert(tags@.map_values(|t: String| t@).push(lowered@) =~= cleaned2);
                } else {
                    assert(tags@.map_values(|t: String| t@).push(lowered@) =~= cleaned2.take(5));
                }
            }
            tags.push(lowered);
        } else {
            proof {
                let cleaned = spec_cleaned_tags(field_views.take(i as int));
                let cleaned2 = spec_cleaned_tags(field_views.take(i as int + 1));
                if keep {
                    assert(cleaned2 == cleaned.push(lowered@));
                    assert(tags@.len() == 5);
                    assert(cleaned.len() >= 5);
                    assert(cleaned2.take(5) =~= cleaned.take(5));
                } else {
                    assert(cleaned2 == cleaned);
                }
            }
        }
        i = i + 1;
    }
    proof {
        assert(field_views.take(n as int) =~= field_views);
    }
    tags
}

/// Pull the answer text out of a model response: an in-band error wins,
/// then the first part of the first candidate; anything else cannot be
/// parsed.
pub fn extract_response_text(response: GeminiResponse) -> (r: Result<String, AiError>)
    ensures
        response.error matches Some(e) ==> r == Err::<String, AiError>(
            AiError::ApiError(e.message),
        ),
        response.error is None ==> (response.candidates matches Some(cs) ==> (cs@.len() > 0
            && cs@[0].content.parts@.len() > 0 ==> r == Ok::<String, AiError>(
            cs@[0].content.parts@[0].text,
        ))),
        response.error is None && (response.candidates is None || (
        response.candidates matches Some(cs) && (cs@.len() == 0 || cs@[0].content.parts@.len()
            == 0))) ==> (r matches Err(AiError::ResponseParseFailed(m)) && m@
            == "No response text found"@),
{
    match response.error {
        Some(e) => Err(AiError::ApiError(e.message)),
        None => {
            match response.candidates {
                Some(mut cs) => {
                    if cs.len() > 0 {
                        let c = cs.remove(0);
                        let mut parts = c.content.parts;
                        if parts.len() > 0 {
                            let p = parts.remove(0);
                            Ok(p.text)
                        } else {
                            Err(
                                AiError::ResponseParseFailed(
                                    String::from_str("No response text found"),
                                ),
                            )
                        }
                    } else {
                        Err(
                            AiError::ResponseParseFailed(
                                String::from_str("No response text found"),
                            ),
                        )
                    }
                },
                None => Err(
                    AiError::ResponseParseFailed(String::from_str("No response text found")),
                ),
            }
        },
    }
}

} // verus!
