//! Building requests for, and reading answers of, the external language
//! model, together with the prompt and source formatting the answering flow
//! uses. Sending the request over HTTP is not done here.

use vstd::prelude::*;
use vstd::string::StringExecFns;

use crate::document::mv::MieuxVivreMetadata;

verus! {

/// The fixed instruction the model is given ahead of every prompt.
pub const SYSTEM_PROMPT: &'static str = "You are an helpful AI assistant that answers questions about newborn and pregnancy health. Only use information provided in the prompt, never use external knowledge. Feel free to quote the provided context always. Always answer in the language the question is in.";

/// One piece of text in a request or an answer.
#[derive(Debug, Clone)]
pub struct GeminiPart {
    pub text: String,
}

/// An ordered run of parts.
#[derive(Debug, Clone)]
pub struct GeminiContent {
    pub parts: Vec<GeminiPart>,
}

/// The system instruction sent ahead of the conversation.
#[derive(Debug, Clone)]
pub struct GeminiSystemInstruction {
    pub parts: Vec<GeminiPart>,
}

/// One generation request: the fixed system instruction and the
/// conversation contents.
#[derive(Debug, Clone)]
pub struct GeminiRequest {
    pub system_instruction: GeminiSystemInstruction,
    pub contents: Vec<GeminiContent>,
}

/// The model's answer: its candidates, best first.
#[derive(Debug, Clone)]
pub struct GeminiResponse {
    pub candidates: Vec<GeminiCandidate>,
}

/// One candidate answer.
#[derive(Debug, Clone)]
pub struct GeminiCandidate {
    pub content: GeminiContent,
}

impl GeminiRequest {
    /// Builds the request for one user prompt: the fixed system instruction
    /// and a single content holding exactly the prompt.
    pub fn from_prompt(prompt: &str) -> (r: GeminiRequest)
        ensures
            r.system_instruction.parts@.len() == 1,
            r.system_instruction.parts@[0].text@ == SYSTEM_PROMPT@,
            r.contents@.len() == 1,
            r.contents@[0].parts@.len() == 1,
            r.contents@[0].parts@[0].text@ == prompt@,
    {
        let mut user_parts: Vec<GeminiPart> = Vec::new();
        user_parts.push(GeminiPart { text: String::from_str(prompt) });
        let mut contents: Vec<GeminiContent> = Vec::new();
        contents.push(GeminiContent { parts: user_parts });
        let mut system_parts: Vec<GeminiPart> = Vec::new();
        system_parts.push(GeminiPart { text: String::from_str(SYSTEM_PROMPT) });
        GeminiRequest {
            system_instruction: GeminiSystemInstruction { parts: system_parts },
            contents: contents,
        }
    }
}

impl GeminiResponse {
    /// The text of the first candidate's first part: the answer the model
    /// gave, if it gave one.
    pub fn first_text(&self) -> (r: Option<String>)
        ensures
            match r {
                Some(t) => self.candidates@.len() > 0 && self.candidates@[0].content.parts@.len()
                    > 0 && t@ == self.candidates@[0].content.parts@[0].text@,
                None => self.candidates@.len() == 0 || self.candidates@[0].content.parts@.len()
                    == 0,
            },
    {
        if self.candidates.len() == 0 {
            return None;
        }
        let first = &self.candidates[0];
        if first.content.parts.len() == 0 {
            return None;
        }
        Some(first.content.parts[0].text.clone())
    }
}

/// The instruction that turns a user's question into a search query.
pub fn build_search_query_prompt(query: &str) -> (r: String)
    ensures
        r@ == "Convert the following user query to a search query: "@ + query@
            + ". Only respond with the search query, nothing else."@,
{
    let mut s = String::from_str("Convert the following user query to a search query: ");
    s.append(query);
    s.append(". Only respond with the search query, nothing else.");
    s
}

/// One quoted context passage, as it stands in the prompt.
pub open spec fn spec_context_entry(text: Seq<char>) -> Seq<char> {
    "Context from mieux vivre: "@ + text + "\n\n"@
}

/// The whole context block: every passage quoted in order.
pub open spec fn spec_context(texts: Seq<Seq<char>>) -> Seq<char>
    decreases texts.len(),
{
    if texts.len() == 0 {
        Seq::empty()
    } else {
        spec_context(texts.drop_last()) + spec_context_entry(texts.last())
    }
}

/// The views of a sequence of strings.
pub open spec fn str_views(texts: Seq<String>) -> Seq<Seq<char>> {
    texts.map_values(|t: String| t@)
}

/// Quotes the given passages into one context block, in order.
pub fn build_context(texts: &Vec<String>) -> (r: String)
    ensures
        r@ == spec_context(str_views(texts@)),
{
    let ghost tv = str_views(texts@);
    let mut s = String::new();
    let mut i: usize = 0;
    proof {
        assert(tv.take(0) =~= Seq::<Seq<char>>::empty());
    }
    while i < texts.len()
        invariant
            i <= texts.len(),
            tv == str_views(texts@),
            tv.len() == texts@.len(),
            s@ == spec_context(tv.take(i as int)),
        decreases texts.len() - i,
    {
        proof {
            assert(tv.take(i as int + 1).drop_last() =~= tv.take(i as int));
            assert(tv.take(i as int + 1).last() == tv[i as int]);
            assert(tv[i as int] == texts@[i as int]@);
        }
        s.append("Context from mieux vivre: ");
        s.append(texts[i].as_str());
        s.append("\n\n");
        i += 1;
    }
    proof {
        assert(tv.take(texts@.len() as int) =~= tv);
    }
    s
}

/// The prompt that asks the model to answer from the quoted context, with
/// the standing request to quote it.
pub fn build_answer_prompt(context: &str, query: &str) -> (r: String)
    ensures
        r@ == "Using the following context from mieux vivre:\n\n"@ + context@
            + "\n\nWhat is the answer to this user query: "@ + query@
            + ". Please quote the mieux vivre context in your answer when possible."@,
{
    let mut s = String::from_str("Using the following context from mieux vivre:\n\n");
    s.append(context);
    s.append("\n\nWhat is the answer to this user query: ");
    s.append(query);
    s.append(". Please quote the mieux vivre context in your answer when possible.");
    s
}

/// One source reference, as it stands under an answer.
pub open spec fn spec_source_line(m: crate::document::mv::MieuxVivreMetadataView) -> Seq<char> {
    "Titre: "@ + m.title + "\nSection: "@ + m.section + "\nSous-section: "@ + m.subsection
        + "\nURL: "@ + m.url + "\n\n"@
}

/// Writes one chunk's source reference.
pub fn format_source_line(m: &MieuxVivreMetadata) -> (r: String)
    ensures
        r@ == spec_source_line(m@),
{
    let mut s = String::from_str("Titre: ");
    s.append(m.title.as_str());
    s.append("\nSection: ");
    s.append(m.section.as_str());
    s.append("\nSous-section: ");
    s.append(m.subsection.as_str());
    s.append("\nURL: ");
    s.append(m.url.as_str());
    s.append("\n\n");
    s
}

/// An answer with its source references appended.
pub fn with_sources(answer: &str, sources: &str) -> (r: String)
    ensures
        r@ == answer@ + "\n\nSources:\n\n"@ + sources@,
{
    let mut s = String::from_str(answer);
    s.append("\n\nSources:\n\n");
    s.append(sources);
    s
}

/// The strings with every repeat of an earlier string removed: each string
/// is kept only at its first occurrence, in order.
pub open spec fn spec_unique(texts: Seq<Seq<char>>) -> Seq<Seq<char>>
    decreases texts.len(),
{
    if texts.len() == 0 {
        Seq::empty()
    } else {
        let prev = spec_unique(texts.drop_last());
        if texts.drop_last().contains(texts.last()) {
            prev
        } else {
            prev.push(texts.last())
        }
    }
}

/// Removes every repeat of an earlier string, keeping first occurrences in
/// order.
pub fn unique_strings(texts: &Vec<String>) -> (r: Vec<String>)
    ensures
        str_views(r@) == spec_unique(str_views(texts@)),
{
    let ghost tv = str_views(texts@);
    let mut out: Vec<String> = Vec::new();
    let mut i: usize = 0;
    proof {
        assert(tv.take(0) =~= Seq::<Seq<char>>::empty());
        assert(str_views(out@) =~= spec_unique(tv.take(0)));
    }
    while i < texts.len()
        invariant
            i <= texts.len(),
            tv == str_views(texts@),
            tv.len() == texts@.len(),
            str_views(out@) == spec_unique(tv.take(i as int)),
        decreases texts.len() - i,
    {
        let mut seen = false;
        let mut j: usize = 0;
        while j < i
            invariant
                j <= i,
                i < texts@.len(),
                tv == str_views(texts@),
                tv.len() == texts@.len(),
                seen == exists|k: int| 0 <= k < j && tv[k] == tv[i as int],
            decreases i - j,
        {
            if texts[j] == texts[i] {
                proof {
                    assert(tv[j as int] == tv[i as int]);
                }
                seen = true;
            }
            j += 1;
        }
        proof {
            assert(tv.take(i as int + 1).drop_last() =~= tv.take(i as int));
            assert(tv.take(i as int + 1).last() == tv[i as int]);
            assert(seen == tv.take(i as int).contains(tv[i as int])) by {
                if seen {
                    let k = choose|k: int| 0 <= k < i && tv[k] == tv[i as int];
                    assert(tv.take(i as int)[k] == tv[i as int]);
                } else {
                    if tv.take(i as int).contains(tv[i as int]) {
                        let k = choose|k: int|
                            0 <= k < i && tv.take(i as int)[k] == tv[i as int];
                        assert(tv[k] == tv[i as int]);
                    }
                }
            }
        }
        if !seen {
            proof {
                out@.lemma_push_map_commute(|t: String| t@, texts@[i as int]);
            }
            let t = texts[i].clone();
            proof {
                assert(t@ == tv[i as int]);
            }
            out.push(t);
            proof {
                assert(str_views(out@) =~= spec_unique(tv.take(i as int + 1)));
            }
        }
        i += 1;
    }
    proof {
        assert(tv.take(texts@.len() as int) =~= tv);
    }
    out
}

} // verus!
