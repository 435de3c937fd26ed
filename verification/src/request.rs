//! The request assembler: from text, labels and configuration to the full
//! chat-completion request body.
//!
//! Assembly is pure construction: the body is a JSON object carrying the
//! model identifier, the sampling temperature, the structured-output
//! constraint built around the schema of [`crate::schema`], and the two
//! messages — a fixed system instruction, and a user message embedding the
//! label list and the text verbatim.

use vstd::prelude::*;

use crate::errors::ClassifyError;
use crate::jsontext::copy_bytes;
use crate::jsontext::copy_labels;
use crate::jsontext::escape_into;
use crate::jsontext::lit;
use crate::jsontext::push_dec;
use crate::jsontext::push_lit;
use crate::jsontext::spec_dec;
use crate::jsontext::spec_esc;
use crate::schema::push_schema_json;
use crate::schema::spec_enum_json;
use crate::schema::spec_quoted_list;
use crate::schema::spec_schema_json;
use vstd::string::StrSliceExecFns;

verus! {

/// How one classification call is configured. All fields have documented
/// defaults; see [`default_config`].
#[derive(Debug, Clone, PartialEq, Eq)]
pub struct Config {
    /// The model identifier sent in the request body.
    pub model: Vec<u8>,
    /// The sampling temperature in hundredths: 20 stands for 0.2. Kept low
    /// by default for reproducible categorical output.
    pub temperature_centi: u32,
    /// The chat-completions endpoint the caller's transport posts to.
    pub endpoint: Vec<u8>,
    /// The bound, in seconds, the caller's transport puts on the exchange.
    pub timeout_secs: u64,
}

/// The default configuration: a small local instruction-tuned model behind
/// a loopback endpoint, temperature 0.2, a 30 second timeout.
pub fn default_config() -> (c: Config)
    ensures
        c.model@ == lit("gemma-3-270m-it"),
        c.temperature_centi == 20,
        c.endpoint@ == lit("http://localhost:1234/v1/chat/completions"),
        c.timeout_secs == 30,
{
    Config {
        model: ("gemma-3-270m-it").as_bytes_vec(),
        temperature_centi: 20,
        endpoint: ("http://localhost:1234/v1/chat/completions").as_bytes_vec(),
        timeout_secs: 30,
    }
}

/// The temperature as a JSON number: the whole hundredths value with
/// trailing zeros of the fraction left off (20 renders as `0.2`).
pub open spec fn spec_temp_json(c: nat) -> Seq<u8> {
    if c % 100 == 0 {
        spec_dec(c / 100)
    } else if c % 10 == 0 {
        spec_dec(c / 100) + lit(".") + seq![(0x30 + (c / 10) % 10) as u8]
    } else {
        spec_dec(c / 100) + lit(".") + seq![(0x30 + (c / 10) % 10) as u8, (0x30 + c % 10) as u8]
    }
}

/// Appends the JSON rendering of the temperature to `out`.
pub fn push_temp(out: &mut Vec<u8>, c: u32)
    ensures
        final(out)@ == old(out)@ + spec_temp_json(c as nat),
{
    if c % 100 == 0 {
        push_dec(out, c / 100);
    } else if c % 10 == 0 {
        push_dec(out, c / 100);
        push_lit(out, ".");
        out.push(0x30 + ((c / 10) % 10) as u8);
        proof {
            assert(out@ =~= old(out)@ + spec_temp_json(c as nat));
        }
    } else {
        push_dec(out, c / 100);
        push_lit(out, ".");
        out.push(0x30 + ((c / 10) % 10) as u8);
        out.push(0x30 + (c % 10) as u8);
        proof {
            assert(out@ =~= old(out)@ + spec_temp_json(c as nat));
        }
    }
}

/// The fixed system instruction.
pub open spec fn spec_system_msg() -> Seq<u8> {
    lit("You are a careful text classifier. Choose exactly one label from the list and explain briefly.")
}

/// The user message: the label list, quoted and bracketed, then the text
/// verbatim on its own lines.
pub open spec fn spec_user_msg(labels: Seq<Seq<u8>>, text: Seq<u8>) -> Seq<u8> {
    lit("Labels: [") + spec_quoted_list(labels, ", ") + lit("]\nText:\n") + text
}

/// The whole request body as JSON text.
pub open spec fn spec_body_json(model: Seq<u8>, tc: nat, labels: Seq<Seq<u8>>, text: Seq<u8>) -> Seq<
    u8,
> {
    lit("{\"model\":\"") + spec_esc(model) + lit("\",\"temperature\":") + spec_temp_json(tc) + lit(
        ",\"response_format\":{\"type\":\"json_schema\",\"json_schema\":{\"name\":\"classification\",\"schema\":",
    ) + spec_schema_json(labels) + lit("}},\"messages\":[{\"role\":\"system\",\"content\":\"")
        + spec_esc(spec_system_msg()) + lit("\"},{\"role\":\"user\",\"content\":\"") + spec_esc(
        spec_user_msg(labels, text),
    ) + lit("\"}]}")
}

/// A byte that `str::trim` would remove from the ends of ordinary text:
/// ASCII whitespace.
pub open spec fn is_trim_ws(b: u8) -> bool {
    b == 0x20 || b == 0x09 || b == 0x0a || b == 0x0b || b == 0x0c || b == 0x0d
}

/// Whether the text is empty or whitespace-only.
pub open spec fn spec_all_ws(t: Seq<u8>) -> bool {
    forall|k: int| 0 <= k < t.len() ==> is_trim_ws(t[k])
}

/// A fully assembled classification request.
#[derive(Debug, Clone, PartialEq, Eq)]
pub struct ClassificationRequest {
    /// The model identifier.
    pub model: Vec<u8>,
    /// The sampling temperature in hundredths.
    pub temperature_centi: u32,
    /// The candidate labels, in the caller's order.
    pub labels: Vec<Vec<u8>>,
    /// The text to classify.
    pub text: Vec<u8>,
}

/// Assembles the request, rejecting empty or whitespace-only text and an
/// empty label set — each with `InvalidInput`, before anything else is
/// built. On success the request carries the text, the labels, and the
/// configuration's model and temperature, unchanged.
pub fn build_request(text: &Vec<u8>, labels: &Vec<Vec<u8>>, config: &Config) -> (r: Result<
    ClassificationRequest,
    ClassifyError,
>)
    ensures
        match r {
            Ok(q) => !spec_all_ws(text@) && labels@.len() > 0 && q.model@ == config.model@
                && q.temperature_centi == config.temperature_centi && q.labels.deep_view()
                == labels.deep_view() && q.text@ == text@,
            Err(e) => (spec_all_ws(text@) || labels@.len() == 0) && e
                == ClassifyError::InvalidInput,
        },
{
    let mut i: usize = 0;
    let mut has_content = false;
    while i < text.len() && !has_content
        invariant
            0 <= i <= text.len(),
            has_content ==> !spec_all_ws(text@),
            !has_content ==> forall|k: int| 0 <= k < i ==> is_trim_ws(text@[k]),
        decreases text.len() - i + (if has_content { 0int } else { 1int }),
    {
        let b = text[i];
        if !(b == 0x20 || b == 0x09 || b == 0x0a || b == 0x0b || b == 0x0c || b == 0x0d) {
            has_content = true;
        } else {
            i = i + 1;
        }
    }
    if !has_content {
        return Err(ClassifyError::InvalidInput);
    }
    if labels.len() == 0 {
        return Err(ClassifyError::InvalidInput);
    }
    Ok(
        ClassificationRequest {
            model: copy_bytes(&config.model),
            temperature_centi: config.temperature_centi,
            labels: copy_labels(labels),
            text: copy_bytes(text),
        },
    )
}

impl ClassificationRequest {
    /// The user message embedded in the request.
    pub fn user_message(&self) -> (r: Vec<u8>)
        ensures
            r@ == spec_user_msg(self.labels.deep_view(), self.text@),
    {
        let mut out: Vec<u8> = Vec::new();
        push_lit(&mut out, "Labels: [");
        crate::schema::push_quoted_list(&mut out, &self.labels, ", ");
        push_lit(&mut out, "]\nText:\n");
        crate::jsontext::push_bytes(&mut out, &self.text);
        proof {
            assert(out@ =~= spec_user_msg(self.labels.deep_view(), self.text@));
        }
        out
    }

    /// The request body as JSON text, ready to post.
    pub fn body_bytes(&self) -> (r: Vec<u8>)
        ensures
            r@ == spec_body_json(
                self.model@,
                self.temperature_centi as nat,
                self.labels.deep_view(),
                self.text@,
            ),
    {
        let mut out: Vec<u8> = Vec::new();
        push_lit(&mut out, "{\"model\":\"");
        escape_into(&mut out, &self.model);
        push_lit(&mut out, "\",\"temperature\":");
        push_temp(&mut out, self.temperature_centi);
        push_lit(
            &mut out,
            ",\"response_format\":{\"type\":\"json_schema\",\"json_schema\":{\"name\":\"classification\",\"schema\":",
        );
        push_schema_json(&mut out, &self.labels);
        push_lit(&mut out, "}},\"messages\":[{\"role\":\"system\",\"content\":\"");
        let sys = (
        "You are a careful text classifier. Choose exactly one label from the list and explain briefly."
        ).as_bytes_vec();
        escape_into(&mut out, &sys);
        push_lit(&mut out, "\"},{\"role\":\"user\",\"content\":\"");
        let user = self.user_message();
        escape_into(&mut out, &user);
        push_lit(&mut out, "\"}]}");
        proof {
            assert(out@ =~= spec_body_json(
                self.model@,
                self.temperature_centi as nat,
                self.labels.deep_view(),
                self.text@,
            ));
        }
        out
    }
}

/// The user message carries the text verbatim: it ends with exactly the
/// text, whatever the labels are.
pub proof fn lemma_user_message_embeds_text(labels: Seq<Seq<u8>>, text: Seq<u8>)
    ensures
        spec_user_msg(labels, text).len() >= text.len(),
        spec_user_msg(labels, text).subrange(
            spec_user_msg(labels, text).len() - text.len(),
            spec_user_msg(labels, text).len() as int,
        ) == text,
{
    assert(spec_user_msg(labels, text).subrange(
        spec_user_msg(labels, text).len() - text.len(),
        spec_user_msg(labels, text).len() as int,
    ) =~= text);
}

/// The request body embeds the schema's label enumeration: the body is some
/// prefix, then the JSON text enumerating exactly the given labels in their
/// given order, then some suffix.
pub proof fn lemma_body_embeds_label_enum(
    model: Seq<u8>,
    tc: nat,
    labels: Seq<Seq<u8>>,
    text: Seq<u8>,
)
    ensures
        exists|a: Seq<u8>, b: Seq<u8>|
            spec_body_json(model, tc, labels, text) == a + spec_enum_json(labels) + b,
{
    let a = lit("{\"model\":\"") + spec_esc(model) + lit("\",\"temperature\":") + spec_temp_json(
        tc,
    ) + lit(
        ",\"response_format\":{\"type\":\"json_schema\",\"json_schema\":{\"name\":\"classification\",\"schema\":",
    ) + lit(
        "{\"type\":\"object\",\"additionalProperties\":false,\"properties\":{\"label\":{\"type\":\"string\",\"enum\":",
    );
    let b = lit("},\"reason\":{\"type\":\"string\"}},\"required\":[\"label\",\"reason\"]}") + lit(
        "}},\"messages\":[{\"role\":\"system\",\"content\":\"",
    ) + spec_esc(spec_system_msg()) + lit("\"},{\"role\":\"user\",\"content\":\"") + spec_esc(
        spec_user_msg(labels, text),
    ) + lit("\"}]}");
    assert(spec_body_json(model, tc, labels, text) =~= a + spec_enum_json(labels) + b);
    assert(exists|x: Seq<u8>, y: Seq<u8>|
        spec_body_json(model, tc, labels, text) == x + spec_enum_json(labels) + y) by {
        assert(spec_body_json(model, tc, labels, text) == a + spec_enum_json(labels) + b);
    }
}

} // verus!
