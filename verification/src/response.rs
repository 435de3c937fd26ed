//! The response validator: from the server's raw JSON response to a typed
//! classification result.
//!
//! Validation locates `choices[0].message.content`, treats it as a
//! JSON-encoded string, and decodes that string strictly into the two-field
//! result shape: exactly one `label` and one `reason`, both strings, no
//! other members, nothing after the object. The returned label is not
//! re-checked against the original label set: that constraint is delegated
//! to the schema the server was given.

use vstd::prelude::*;

use crate::errors::ClassifyError;
use crate::errors::MalformedKind;
use crate::jsontext::arr_first;
use crate::jsontext::bytes_eq;
use crate::jsontext::lit;
use crate::jsontext::obj_member;
use crate::jsontext::parse_string;
use crate::jsontext::skip_ws;
use crate::jsontext::lemma_parse_string_advances;
use crate::jsontext::lemma_skip_ws_bounds;
use crate::jsontext::spec_arr_first;
use crate::jsontext::spec_obj_member;
use crate::jsontext::spec_parse_string;
use crate::jsontext::spec_skip_ws;
use crate::jsontext::spec_esc;
use crate::jsontext::spec_members;
use crate::jsontext::lemma_esc_plain;
use crate::jsontext::lemma_str_body_inverts_esc;
use crate::schema::spec_quoted;
use vstd::string::StrSliceExecFns;

verus! {

/// The decoded text of `choices[0].message.content`, where the response
/// carries one.
pub open spec fn spec_extract_content(s: Seq<u8>) -> Option<Seq<u8>> {
    match spec_obj_member(s, spec_skip_ws(s, 0), lit("choices")) {
        None => None,
        Some(c) => match spec_arr_first(s, c) {
            None => None,
            Some(e) => match spec_obj_member(s, e, lit("message")) {
                None => None,
                Some(m) => match spec_obj_member(s, m, lit("content")) {
                    None => None,
                    Some(v) => match spec_parse_string(s, v) {
                        None => None,
                        Some((t, _)) => Some(t),
                    },
                },
            },
        },
    }
}

/// Executable mirror of [`spec_extract_content`].
pub fn extract_content(s: &Vec<u8>) -> (r: Option<Vec<u8>>)
    ensures
        match r {
            Some(t) => spec_extract_content(s@) == Some(t@),
            None => spec_extract_content(s@) is None,
        },
{
    let r0 = skip_ws(s, 0);
    let key_choices = ("choices").as_bytes_vec();
    match obj_member(s, r0, &key_choices) {
        None => None,
        Some(c) => match arr_first(s, c) {
            None => None,
            Some(e) => {
                let key_message = ("message").as_bytes_vec();
                match obj_member(s, e, &key_message) {
                    None => None,
                    Some(m) => {
                        let key_content = ("content").as_bytes_vec();
                        match obj_member(s, m, &key_content) {
                            None => None,
                            Some(v) => match parse_string(s, v) {
                                None => None,
                                Some((t, _)) => Some(t),
                            },
                        }
                    },
                }
            },
        },
    }
}

/// The byte-sequence views of an optional field value.
pub open spec fn opt_bytes(o: Option<Vec<u8>>) -> Option<Seq<u8>> {
    match o {
        None => None,
        Some(v) => Some(v@),
    }
}

/// Walks the members of the classification object from the position `j` of
/// a member key, under strict decoding: every member must be a string named
/// `label` or `reason`, neither may repeat, and both must be present when
/// the closing brace arrives. Gives the two values and the position past
/// the closing brace.
pub open spec fn spec_class_fields(
    s: Seq<u8>,
    j: int,
    lab: Option<Seq<u8>>,
    rea: Option<Seq<u8>>,
) -> Option<(Seq<u8>, Seq<u8>, int)>
    decreases s.len() - j,
    via spec_class_fields_dec
{
    match spec_parse_string(s, j) {
        None => None,
        Some((k, j2)) => {
            let j3 = spec_skip_ws(s, j2);
            if !(0 <= j3 < s.len() && s[j3] == 0x3a) {
                None
            } else {
                let v = spec_skip_ws(s, j3 + 1);
                match spec_parse_string(s, v) {
                    None => None,
                    Some((val, j4)) => {
                        if !((k == lit("label") && lab is None) || (k == lit("reason") && rea
                            is None)) {
                            None
                        } else {
                            let lab2 = if k == lit("label") {
                                Some(val)
                            } else {
                                lab
                            };
                            let rea2 = if k == lit("reason") {
                                Some(val)
                            } else {
                                rea
                            };
                            let j5 = spec_skip_ws(s, j4);
                            if 0 <= j5 < s.len() && s[j5] == 0x2c {
                                spec_class_fields(s, spec_skip_ws(s, j5 + 1), lab2, rea2)
                            } else if 0 <= j5 < s.len() && s[j5] == 0x7d {
                                match (lab2, rea2) {
                                    (Some(l), Some(r)) => Some((l, r, j5 + 1)),
                                    _ => None,
                                }
                            } else {
                                None
                            }
                        }
                    },
                }
            }
        },
    }
}

#[via_fn]
proof fn spec_class_fields_dec(s: Seq<u8>, j: int, lab: Option<Seq<u8>>, rea: Option<Seq<u8>>) {
    lemma_parse_string_advances(s, j);
    match spec_parse_string(s, j) {
        None => {
        },
        Some((k, j2)) => {
            lemma_skip_ws_bounds(s, j2);
            let j3 = spec_skip_ws(s, j2);
            if 0 <= j3 < s.len() && s[j3] == 0x3a {
                lemma_skip_ws_bounds(s, j3 + 1);
                let v = spec_skip_ws(s, j3 + 1);
                lemma_parse_string_advances(s, v);
                match spec_parse_string(s, v) {
                    None => {
                    },
                    Some((val, j4)) => {
                        lemma_skip_ws_bounds(s, j4);
                        let j5 = spec_skip_ws(s, j4);
                        if 0 <= j5 < s.len() && s[j5] == 0x2c {
                            lemma_skip_ws_bounds(s, j5 + 1);
                        }
                    },
                }
            }
        },
    }
}

/// The strict decoding of the content text: a JSON object with exactly the
/// two string members `label` and `reason` (in either order), and nothing
/// but whitespace around it.
pub open spec fn spec_parse_classification(s: Seq<u8>) -> Option<(Seq<u8>, Seq<u8>)> {
    let i = spec_skip_ws(s, 0);
    if 0 <= i < s.len() && s[i] == 0x7b {
        match spec_class_fields(s, spec_skip_ws(s, i + 1), None, None) {
            None => None,
            Some((l, r, e)) => if spec_skip_ws(s, e) == s.len() {
                Some((l, r))
            } else {
                None
            },
        }
    } else {
        None
    }
}


proof fn lemma_keys_distinct()
    ensures
        lit("label") != lit("reason"),
{
    reveal_strlit("label");
    reveal_strlit("reason");
    assert(vstd::string::is_ascii("label"));
    assert(vstd::string::is_ascii("reason"));
    broadcast use vstd::string::is_ascii_spec_bytes;

    assert(lit("label").len() == 5);
    assert(lit("reason").len() == 6);
}

/// Executable mirror of [`spec_parse_classification`].
pub fn parse_classification(s: &Vec<u8>) -> (r: Option<(Vec<u8>, Vec<u8>)>)
    ensures
        match r {
            Some(p) => spec_parse_classification(s@) == Some((p.0@, p.1@)),
            None => spec_parse_classification(s@) is None,
        },
{
    let i = skip_ws(s, 0);
    if i >= s.len() || s[i] != 0x7b {
        return None;
    }
    let mut j = skip_ws(s, i + 1);
    let mut lab: Option<Vec<u8>> = None;
    let mut rea: Option<Vec<u8>> = None;
    let key_label = ("label").as_bytes_vec();
    let key_reason = ("reason").as_bytes_vec();
    loop
        invariant
            j <= s.len(),
            key_label@ == lit("label"),
            key_reason@ == lit("reason"),
            spec_parse_classification(s@) == (match spec_class_fields(
                s@,
                j as int,
                opt_bytes(lab),
                opt_bytes(rea),
            ) {
                None => None,
                Some((l, r, e)) => if spec_skip_ws(s@, e) == s@.len() {
                    Some((l, r))
                } else {
                    None
                },
            }),
        decreases s.len() - j,
    {
        let ghost j0 = j as int;
        let ghost lab0 = opt_bytes(lab);
        let ghost rea0 = opt_bytes(rea);
        match parse_string(s, j) {
            None => {
                return None;
            },
            Some((k, j2)) => {
                let j3 = skip_ws(s, j2);
                if j3 >= s.len() || s[j3] != 0x3a {
                    return None;
                }
                let v = skip_ws(s, j3 + 1);
                match parse_string(s, v) {
                    None => {
                        return None;
                    },
                    Some((val, j4)) => {
                        let is_label = bytes_eq(&k, &key_label);
                        let is_reason = bytes_eq(&k, &key_reason);
                        if !((is_label && lab.is_none()) || (is_reason && rea.is_none())) {
                            return None;
                        }
                        if is_label {
                            lab = Some(val);
                        } else {
                            rea = Some(val);
                        }
                        let j5 = skip_ws(s, j4);
                        if j5 < s.len() && s[j5] == 0x2c {
                            j = skip_ws(s, j5 + 1);
                            proof {
                                lemma_keys_distinct();
                                assert(spec_class_fields(s@, j0, lab0, rea0) == spec_class_fields(
                                    s@,
                                    j as int,
                                    opt_bytes(lab),
                                    opt_bytes(rea),
                                ));
                            }
                        } else if j5 < s.len() && s[j5] == 0x7d {
                            proof {
                                lemma_keys_distinct();
                                assert(spec_class_fields(s@, j0, lab0, rea0) == (match (opt_bytes(
                                    lab,
                                ), opt_bytes(rea)) {
                                    (Some(l), Some(r)) => Some((l, r, j5 as int + 1)),
                                    _ => None::<(Seq<u8>, Seq<u8>, int)>,
                                }));
                            }
                            match (lab, rea) {
                                (Some(l), Some(r)) => {
                                    let t = skip_ws(s, j5 + 1);
                                    if t == s.len() {
                                        return Some((l, r));
                                    } else {
                                        return None;
                                    }
                                },
                                _ => {
                                    return None;
                                },
                            }
                        } else {
                            return None;
                        }
                    },
                }
            },
        }
    }
}

/// One validated classification: the label the server chose and its short
/// justification.
#[derive(Debug, Clone, PartialEq, Eq)]
pub struct ClassificationResult {
    /// The chosen label.
    pub label: Vec<u8>,
    /// The model's short justification.
    pub reason: Vec<u8>,
}

/// Validates the raw top-level JSON response of the server.
///
/// Succeeds exactly where `choices[0].message.content` holds a string whose
/// text decodes strictly to the two-field classification shape; fails with
/// `MalformedResponse`, naming what was wrong, everywhere else — never by
/// defaulting.
pub fn parse_response(raw: &Vec<u8>) -> (r: Result<ClassificationResult, ClassifyError>)
    ensures
        match r {
            Ok(c) => spec_extract_content(raw@) matches Some(t) && spec_parse_classification(t)
                == Some((c.label@, c.reason@)),
            Err(e) => match e {
                ClassifyError::MalformedResponse(MalformedKind::MissingContent) => spec_extract_content(raw@) is None,
                ClassifyError::MalformedResponse(MalformedKind::BadClassification) => spec_extract_content(raw@) matches Some(t) && spec_parse_classification(t) is None,
                _ => false,
            },
        },
{
    match extract_content(raw) {
        None => Err(ClassifyError::MalformedResponse(MalformedKind::MissingContent)),
        Some(content) => match parse_classification(&content) {
            None => Err(ClassifyError::MalformedResponse(MalformedKind::BadClassification)),
            Some((l, r)) => Ok(ClassificationResult { label: l, reason: r }),
        },
    }
}

/// The JSON text of a well-formed classification object for the given
/// label and reason.
pub open spec fn spec_class_doc(label: Seq<u8>, reason: Seq<u8>) -> Seq<u8> {
    lit("{") + spec_quoted(lit("label")) + lit(":") + spec_quoted(label) + lit(",") + spec_quoted(
        lit("reason"),
    ) + lit(":") + spec_quoted(reason) + lit("}")
}

/// The JSON text of a well-formed server response whose first choice's
/// message carries `content` as its string content.
pub open spec fn spec_response_doc(content: Seq<u8>) -> Seq<u8> {
    lit("{") + spec_quoted(lit("choices")) + lit(":[{") + spec_quoted(lit("message")) + lit(":{")
        + spec_quoted(lit("content")) + lit(":") + spec_quoted(content) + lit("}}]}")
}

proof fn lemma_lit_bytes()
    ensures
        lit("{") == seq![0x7bu8],
        lit("}") == seq![0x7du8],
        lit(":") == seq![0x3au8],
        lit(",") == seq![0x2cu8],
        lit("\"") == seq![0x22u8],
        lit(":[{") == seq![0x3au8, 0x5bu8, 0x7bu8],
        lit(":{") == seq![0x3au8, 0x7bu8],
        lit("}}]}") == seq![0x7du8, 0x7du8, 0x5du8, 0x7du8],
        lit("label") == seq![0x6cu8, 0x61u8, 0x62u8, 0x65u8, 0x6cu8],
        lit("reason") == seq![0x72u8, 0x65u8, 0x61u8, 0x73u8, 0x6fu8, 0x6eu8],
        lit("choices") == seq![0x63u8, 0x68u8, 0x6fu8, 0x69u8, 0x63u8, 0x65u8, 0x73u8],
        lit("message") == seq![0x6du8, 0x65u8, 0x73u8, 0x73u8, 0x61u8, 0x67u8, 0x65u8],
        lit("content") == seq![0x63u8, 0x6fu8, 0x6eu8, 0x74u8, 0x65u8, 0x6eu8, 0x74u8],
{
    broadcast use vstd::string::is_ascii_spec_bytes;

    reveal_strlit("{");
    reveal_strlit("}");
    reveal_strlit(":");
    reveal_strlit(",");
    reveal_strlit("\"");
    reveal_strlit(":[{");
    reveal_strlit(":{");
    reveal_strlit("}}]}");
    reveal_strlit("label");
    reveal_strlit("reason");
    reveal_strlit("choices");
    reveal_strlit("message");
    reveal_strlit("content");
    assert(vstd::string::is_ascii("{"));
    assert(vstd::string::is_ascii("}"));
    assert(vstd::string::is_ascii(":"));
    assert(vstd::string::is_ascii(","));
    assert(vstd::string::is_ascii("\""));
    assert(vstd::string::is_ascii(":[{"));
    assert(vstd::string::is_ascii(":{"));
    assert(vstd::string::is_ascii("}}]}"));
    assert(vstd::string::is_ascii("label"));
    assert(vstd::string::is_ascii("reason"));
    assert(vstd::string::is_ascii("choices"));
    assert(vstd::string::is_ascii("message"));
    assert(vstd::string::is_ascii("content"));
    assert(lit("{") =~= seq![0x7bu8]);
    assert(lit("}") =~= seq![0x7du8]);
    assert(lit(":") =~= seq![0x3au8]);
    assert(lit(",") =~= seq![0x2cu8]);
    assert(lit("\"") =~= seq![0x22u8]);
    assert(lit(":[{") =~= seq![0x3au8, 0x5bu8, 0x7bu8]);
    assert(lit(":{") =~= seq![0x3au8, 0x7bu8]);
    assert(lit("}}]}") =~= seq![0x7du8, 0x7du8, 0x5du8, 0x7du8]);
    assert(lit("label") =~= seq![0x6cu8, 0x61u8, 0x62u8, 0x65u8, 0x6cu8]);
    assert(lit("reason") =~= seq![0x72u8, 0x65u8, 0x61u8, 0x73u8, 0x6fu8, 0x6eu8]);
    assert(lit("choices") =~= seq![0x63u8, 0x68u8, 0x6fu8, 0x69u8, 0x63u8, 0x65u8, 0x73u8]);
    assert(lit("message") =~= seq![0x6du8, 0x65u8, 0x73u8, 0x73u8, 0x61u8, 0x67u8, 0x65u8]);
    assert(lit("content") =~= seq![0x63u8, 0x6fu8, 0x6eu8, 0x74u8, 0x65u8, 0x6eu8, 0x74u8]);
}

/// The walk over the second member of the classification document: from
/// the position of the `"reason"` key, with the label already in hand, the
/// member walk ends just past the closing brace with both values.
#[verifier::rlimit(100)]
proof fn lemma_class_doc_tail(label: Seq<u8>, reason: Seq<u8>)
    ensures
        spec_class_doc(label, reason).len() == 24 + spec_esc(label).len() + spec_esc(
            reason,
        ).len(),
        spec_class_fields(
            spec_class_doc(label, reason),
            12 + spec_esc(label).len() as int,
            Some(label),
            None,
        ) == Some(
            (label, reason, spec_class_doc(label, reason).len() as int),
        ),
{
    lemma_lit_bytes();
    lemma_keys_distinct();
    let d = spec_class_doc(label, reason);
    let kl = lit("label");
    let kr = lit("reason");
    assert(forall|i: int| 0 <= i < kl.len() ==> (kl[i] != 0x22 && kl[i] != 0x5c && kl[i] >= 0x20));
    assert(forall|i: int| 0 <= i < kr.len() ==> (kr[i] != 0x22 && kr[i] != 0x5c && kr[i] >= 0x20));
    lemma_esc_plain(kl);
    lemma_esc_plain(kr);
    let el = spec_esc(label);
    let er = spec_esc(reason);
    let q1 = seq![0x22u8];
    let p = 11 + el.len() as int;
    let pre3 = lit("{") + spec_quoted(kl) + lit(":") + lit("\"") + el + q1 + lit(",") + lit(
        "\"",
    );
    let post3 = lit(":") + spec_quoted(reason) + lit("}");
    assert(d =~= pre3 + spec_esc(kr) + q1 + post3);
    lemma_str_body_inverts_esc(pre3, kr, post3);
    assert(pre3.len() == p + 2);
    assert(spec_parse_string(d, p + 1) == Some((kr, p + 9int)));
    assert(d[p + 9] == 0x3a);
    assert(spec_skip_ws(d, p + 9) == p + 9);
    assert(d[p + 10] == 0x22);
    assert(spec_skip_ws(d, p + 10) == p + 10);
    let pre4 = pre3 + spec_esc(kr) + q1 + lit(":") + lit("\"");
    let post4 = lit("}");
    assert(d =~= pre4 + er + q1 + post4);
    lemma_str_body_inverts_esc(pre4, reason, post4);
    assert(pre4.len() == p + 11);
    assert(spec_parse_string(d, p + 10) == Some((reason, p + 12int + er.len())));
    let q = p + 12 + er.len() as int;
    assert(d.len() == q + 1);
    assert(d[q] == 0x7d);
    assert(spec_skip_ws(d, q) == q);
    assert(spec_class_fields(d, p + 1, Some(label), None) == Some((label, reason, q + 1)));
}

/// Strict decoding is a left inverse of writing the classification object:
/// the well-formed document for any label and reason decodes back to
/// exactly that pair.
#[verifier::rlimit(100)]
pub proof fn lemma_parse_classification_round_trip(label: Seq<u8>, reason: Seq<u8>)
    ensures
        spec_parse_classification(spec_class_doc(label, reason)) == Some((label, reason)),
{
    lemma_lit_bytes();
    lemma_keys_distinct();
    let d = spec_class_doc(label, reason);
    let kl = lit("label");
    let kr = lit("reason");
    assert(forall|i: int| 0 <= i < kl.len() ==> (kl[i] != 0x22 && kl[i] != 0x5c && kl[i] >= 0x20));
    lemma_esc_plain(kl);
    let el = spec_esc(label);
    let q1 = seq![0x22u8];
    let pre1 = lit("{") + lit("\"");
    let post1 = lit(":") + spec_quoted(label) + lit(",") + spec_quoted(kr) + lit(":")
        + spec_quoted(reason) + lit("}");
    assert(d =~= pre1 + spec_esc(kl) + q1 + post1);
    lemma_str_body_inverts_esc(pre1, kl, post1);
    assert(spec_parse_string(d, 1) == Some((kl, 8int)));
    assert(d[8] == 0x3a);
    assert(spec_skip_ws(d, 8) == 8);
    assert(d[9] == 0x22);
    assert(spec_skip_ws(d, 9) == 9);
    let pre2 = pre1 + spec_esc(kl) + q1 + lit(":") + lit("\"");
    let post2 = lit(",") + spec_quoted(kr) + lit(":") + spec_quoted(reason) + lit("}");
    assert(d =~= pre2 + el + q1 + post2);
    lemma_str_body_inverts_esc(pre2, label, post2);
    assert(pre2.len() == 10);
    assert(spec_parse_string(d, 9) == Some((label, 11int + el.len())));
    let p = 11 + el.len() as int;
    assert(d[p] == 0x2c);
    assert(spec_skip_ws(d, p) == p);
    assert(d[p + 1] == 0x22);
    assert(spec_skip_ws(d, p + 1) == p + 1);
    assert(spec_class_fields(d, 1, None, None) == spec_class_fields(d, p + 1, Some(label), None));
    lemma_class_doc_tail(label, reason);
    assert(spec_class_fields(d, p + 1, Some(label), None) == Some(
        (label, reason, d.len() as int),
    ));
    assert(spec_skip_ws(d, d.len() as int) == d.len() as int);
    assert(d[0] == 0x7b);
    assert(spec_skip_ws(d, 0) == 0);
    assert(d[1] == 0x22);
    assert(spec_skip_ws(d, 1) == 1);
    assert(spec_parse_classification(d) == Some((label, reason)));
}

/// Content extraction is a left inverse of writing the response envelope:
/// the well-formed response for any content text yields back exactly that
/// text.
#[verifier::rlimit(100)]
pub proof fn lemma_extract_content_round_trip(content: Seq<u8>)
    ensures
        spec_extract_content(spec_response_doc(content)) == Some(content),
{
    lemma_lit_bytes();
    let d = spec_response_doc(content);
    let kc = lit("choices");
    let km = lit("message");
    let kt = lit("content");
    assert(forall|i: int| 0 <= i < kc.len() ==> (kc[i] != 0x22 && kc[i] != 0x5c && kc[i] >= 0x20));
    assert(forall|i: int| 0 <= i < km.len() ==> (km[i] != 0x22 && km[i] != 0x5c && km[i] >= 0x20));
    assert(forall|i: int| 0 <= i < kt.len() ==> (kt[i] != 0x22 && kt[i] != 0x5c && kt[i] >= 0x20));
    lemma_esc_plain(kc);
    lemma_esc_plain(km);
    lemma_esc_plain(kt);
    let q1 = seq![0x22u8];
    let pre1 = lit("{") + lit("\"");
    let post1 = lit(":[{") + spec_quoted(km) + lit(":{") + spec_quoted(kt) + lit(":")
        + spec_quoted(content) + lit("}}]}");
    assert(d =~= pre1 + spec_esc(kc) + q1 + post1);
    lemma_str_body_inverts_esc(pre1, kc, post1);
    assert(spec_parse_string(d, 1) == Some((kc, 10int)));
    assert(d[0] == 0x7b);
    assert(spec_skip_ws(d, 0) == 0);
    assert(d[1] == 0x22);
    assert(spec_skip_ws(d, 1) == 1);
    assert(d[10] == 0x3a);
    assert(spec_skip_ws(d, 10) == 10);
    assert(d[11] == 0x5b);
    assert(spec_skip_ws(d, 11) == 11);
    assert(spec_members(d, 1, kc) == Some(11int));
    assert(spec_obj_member(d, 0, kc) == Some(11int));
    assert(d[12] == 0x7b);
    assert(spec_skip_ws(d, 12) == 12);
    assert(spec_arr_first(d, 11) == Some(12int));
    assert(d[13] == 0x22);
    assert(spec_skip_ws(d, 13) == 13);
    let pre2 = pre1 + spec_esc(kc) + q1 + lit(":[{") + lit("\"");
    let post2 = lit(":{") + spec_quoted(kt) + lit(":") + spec_quoted(content) + lit("}}]}");
    assert(d =~= pre2 + spec_esc(km) + q1 + post2);
    lemma_str_body_inverts_esc(pre2, km, post2);
    assert(pre2.len() == 14);
    assert(spec_parse_string(d, 13) == Some((km, 22int)));
    assert(d[22] == 0x3a);
    assert(spec_skip_ws(d, 22) == 22);
    assert(d[23] == 0x7b);
    assert(spec_skip_ws(d, 23) == 23);
    assert(spec_members(d, 13, km) == Some(23int));
    assert(spec_obj_member(d, 12, km) == Some(23int));
    assert(d[24] == 0x22);
    assert(spec_skip_ws(d, 24) == 24);
    let pre3 = pre2 + spec_esc(km) + q1 + lit(":{") + lit("\"");
    let post3 = lit(":") + spec_quoted(content) + lit("}}]}");
    assert(d =~= pre3 + spec_esc(kt) + q1 + post3);
    lemma_str_body_inverts_esc(pre3, kt, post3);
    assert(pre3.len() == 25);
    assert(spec_parse_string(d, 24) == Some((kt, 33int)));
    assert(d[33] == 0x3a);
    assert(spec_skip_ws(d, 33) == 33);
    assert(d[34] == 0x22);
    assert(spec_skip_ws(d, 34) == 34);
    assert(spec_members(d, 24, kt) == Some(34int));
    assert(spec_obj_member(d, 23, kt) == Some(34int));
    let pre4 = pre3 + spec_esc(kt) + q1 + lit(":") + lit("\"");
    let post4 = lit("}}]}");
    assert(d =~= pre4 + spec_esc(content) + q1 + post4);
    lemma_str_body_inverts_esc(pre4, content, post4);
    assert(pre4.len() == 35);
    assert(spec_parse_string(d, 34) == Some((content, 36int + spec_esc(content).len())));
    assert(spec_extract_content(d) == Some(content));
}

/// Parsing is a left inverse of a well-formed server response: the
/// response embedding the classification object for any label and reason
/// extracts to that object's text, which decodes back to exactly that
/// label and reason.
pub proof fn lemma_response_round_trip(label: Seq<u8>, reason: Seq<u8>)
    ensures
        spec_extract_content(spec_response_doc(spec_class_doc(label, reason))) == Some(
            spec_class_doc(label, reason),
        ),
        spec_parse_classification(spec_class_doc(label, reason)) == Some((label, reason)),
{
    lemma_extract_content_round_trip(spec_class_doc(label, reason));
    lemma_parse_classification_round_trip(label, reason);
}

} // verus!
