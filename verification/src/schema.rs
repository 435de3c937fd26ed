//! The schema builder: a strict JSON schema derived from the caller's label
//! set.
//!
//! The schema describes an object with exactly two required properties —
//! `label`, a string drawn from the candidate labels (kept in their given
//! order, with their exact text), and `reason`, a free string — and with
//! `additionalProperties` set to `false` at its top level.

use vstd::prelude::*;

use crate::jsontext::copy_labels;
use crate::jsontext::escape_into;
use crate::jsontext::lit;
use crate::jsontext::push_lit;
use crate::jsontext::spec_esc;

verus! {

/// A label (or any byte string) as a quoted JSON string.
pub open spec fn spec_quoted(s: Seq<u8>) -> Seq<u8> {
    lit("\"") + spec_esc(s) + lit("\"")
}

/// Appends `s` as a quoted JSON string to `out`.
pub fn push_quoted(out: &mut Vec<u8>, s: &Vec<u8>)
    ensures
        final(out)@ == old(out)@ + spec_quoted(s@),
{
    push_lit(out, "\"");
    escape_into(out, s);
    push_lit(out, "\"");
    proof {
        assert(out@ =~= old(out)@ + spec_quoted(s@));
    }
}

/// The elements of `ls` from `i` on, each quoted and preceded by `sep`.
pub open spec fn spec_quoted_list_rest(ls: Seq<Seq<u8>>, i: int, sep: &str) -> Seq<u8>
    decreases ls.len() - i,
{
    if 0 <= i < ls.len() {
        lit(sep) + spec_quoted(ls[i]) + spec_quoted_list_rest(ls, i + 1, sep)
    } else {
        Seq::empty()
    }
}

/// The elements of `ls`, each quoted, separated by `sep`.
pub open spec fn spec_quoted_list(ls: Seq<Seq<u8>>, sep: &str) -> Seq<u8> {
    if ls.len() == 0 {
        Seq::empty()
    } else {
        spec_quoted(ls[0]) + spec_quoted_list_rest(ls, 1, sep)
    }
}

/// Appends the quoted, `sep`-separated rendering of `ls` to `out`.
pub fn push_quoted_list(out: &mut Vec<u8>, ls: &Vec<Vec<u8>>, sep: &str)
    ensures
        final(out)@ == old(out)@ + spec_quoted_list(ls.deep_view(), sep),
{
    if ls.len() == 0 {
        proof {
            assert(out@ + Seq::<u8>::empty() =~= out@);
        }
        return ;
    }
    proof {
        assert(ls.deep_view()[0] == ls@[0]@);
    }
    push_quoted(out, &ls[0]);
    let mut i: usize = 1;
    while i < ls.len()
        invariant
            1 <= i <= ls.len(),
            ls@.len() == ls.deep_view().len(),
            out@ + spec_quoted_list_rest(ls.deep_view(), i as int, sep) == old(out)@
                + spec_quoted_list(ls.deep_view(), sep),
        decreases ls.len() - i,
    {
        let ghost out0 = out@;
        proof {
            assert(ls.deep_view()[i as int] == ls@[i as int]@);
        }
        push_lit(out, sep);
        push_quoted(out, &ls[i]);
        i = i + 1;
        proof {
            assert(out@ + spec_quoted_list_rest(ls.deep_view(), i as int, sep) =~= out0
                + spec_quoted_list_rest(ls.deep_view(), i - 1, sep));
        }
    }
    proof {
        assert(spec_quoted_list_rest(ls.deep_view(), ls.deep_view().len() as int, sep)
            =~= Seq::<u8>::empty());
        assert(out@ =~= old(out)@ + spec_quoted_list(ls.deep_view(), sep));
    }
}

/// The JSON text of the `enum` listing the candidate labels, in order.
pub open spec fn spec_enum_json(labels: Seq<Seq<u8>>) -> Seq<u8> {
    lit("[") + spec_quoted_list(labels, ",") + lit("]")
}

/// The JSON text of the whole classification schema.
pub open spec fn spec_schema_json(labels: Seq<Seq<u8>>) -> Seq<u8> {
    lit(
        "{\"type\":\"object\",\"additionalProperties\":false,\"properties\":{\"label\":{\"type\":\"string\",\"enum\":",
    ) + spec_enum_json(labels) + lit(
        "},\"reason\":{\"type\":\"string\"}},\"required\":[\"label\",\"reason\"]}",
    )
}

/// Appends the JSON text of the classification schema for `labels` to `out`.
pub fn push_schema_json(out: &mut Vec<u8>, labels: &Vec<Vec<u8>>)
    ensures
        final(out)@ == old(out)@ + spec_schema_json(labels.deep_view()),
{
    push_lit(
        out,
        "{\"type\":\"object\",\"additionalProperties\":false,\"properties\":{\"label\":{\"type\":\"string\",\"enum\":",
    );
    push_lit(out, "[");
    push_quoted_list(out, labels, ",");
    push_lit(out, "]");
    push_lit(out, "},\"reason\":{\"type\":\"string\"}},\"required\":[\"label\",\"reason\"]}");
    proof {
        assert(out@ =~= old(out)@ + spec_schema_json(labels.deep_view()));
    }
}

/// A JSON schema for the classification object, built from a label set.
///
/// The schema is a pure function of the label sequence: building it twice
/// from the same labels yields the same value and the same JSON text.
#[derive(Debug, Clone, PartialEq, Eq)]
pub struct Schema {
    /// The candidate labels, in the caller's order.
    pub labels: Vec<Vec<u8>>,
}

/// Derives the schema from the candidate labels. The caller rejects an
/// empty label set before calling.
pub fn build_schema(labels: &Vec<Vec<u8>>) -> (s: Schema)
    requires
        labels@.len() > 0,
    ensures
        s.labels.deep_view() == labels.deep_view(),
        s.labels@.len() == labels@.len(),
{
    Schema { labels: copy_labels(labels) }
}

impl Schema {
    /// The schema as JSON text.
    pub fn to_bytes(&self) -> (r: Vec<u8>)
        ensures
            r@ == spec_schema_json(self.labels.deep_view()),
    {
        let mut out: Vec<u8> = Vec::new();
        push_schema_json(&mut out, &self.labels);
        proof {
            assert(Seq::<u8>::empty() + spec_schema_json(self.labels.deep_view())
                =~= spec_schema_json(self.labels.deep_view()));
        }
        out
    }
}

/// Schema building is idempotent: the schema is a function of the label
/// sequence alone, so two schemas built from the same labels are
/// structurally identical and carry the same JSON text.
pub proof fn lemma_schema_idempotent(s1: Schema, s2: Schema)
    requires
        s1.labels.deep_view() == s2.labels.deep_view(),
    ensures
        spec_schema_json(s1.labels.deep_view()) == spec_schema_json(s2.labels.deep_view()),
{
}

} // verus!
