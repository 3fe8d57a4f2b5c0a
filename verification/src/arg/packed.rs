//! Decoding for the packed message layout, where the payload itself starts with the
//! argument count and the argument schemas:
//! `[count: u8][schema 0]...[schema n-1][value 0]...[value n-1]`.
use vstd::prelude::*;
use vstd::string::StringSliceAdditionalSpecFns;

use super::decode::{
    parse_schema_offsets, render_args, render_body, render_each_arg, render_placeholders,
    schema_offsets, token_lists,
};
use super::traits::UserFormatter;
use crate::metadata::Metadata;
use crate::text::{push_bytes, text, Token};

verus! {

/// The arguments of a packed payload, each rendered on its own; no arguments when the
/// payload is empty or its count byte is 0.
pub open spec fn spec_decode_packed(p: Seq<u8>) -> Option<Seq<Seq<Token>>> {
    if p.len() == 0 || p[0] == 0 {
        Some(Seq::empty())
    } else {
        match schema_offsets(p, 1, p[0] as nat) {
            None => None,
            Some((offs, end)) => render_args(p, offs, p, Seq::empty(), Seq::<&dyn UserFormatter>::empty(), 0, end),
        }
    }
}

/// The body of a message with a packed payload; the format string itself when the
/// payload is empty or its count byte is 0.
pub open spec fn spec_format_body_packed(fmt: Seq<u8>, p: Seq<u8>) -> Option<Seq<Token>> {
    if p.len() == 0 || p[0] == 0 {
        Some(text(fmt))
    } else {
        match schema_offsets(p, 1, p[0] as nat) {
            None => None,
            Some((offs, end)) => render_body(fmt, p, offs, p, Seq::empty(), Seq::<&dyn UserFormatter>::empty(), 0, end),
        }
    }
}

/// Decodes each argument of a packed payload into its own rendering.
pub fn decode_args(payload: &[u8]) -> (r: Vec<Vec<Token>>)
    requires
        spec_decode_packed(payload@) is Some,
    ensures
        spec_decode_packed(payload@) == Some(token_lists(r@)),
{
    if payload.len() == 0 || payload[0] == 0 {
        let r: Vec<Vec<Token>> = Vec::new();
        assert(token_lists(r@) =~= Seq::<Seq<Token>>::empty());
        return r;
    }
    let (offsets, end) = parse_schema_offsets(payload, 1, payload[0] as usize);
    let tables: &[&[u8]] = &[];
    let ufs: &[&dyn UserFormatter] = &[];
    assert(super::strtab::tables_view(tables@) =~= Seq::<Seq<u8>>::empty());
    assert(ufs@ =~= Seq::<&dyn UserFormatter>::empty());
    render_each_arg(payload, &offsets, payload, tables, ufs, end)
}

/// Formats the body of a message whose payload is packed.
pub fn format_body(metadata: &Metadata, payload: &[u8]) -> (r: Vec<Token>)
    requires
        spec_format_body_packed(metadata.format_str.spec_bytes(), payload@) is Some,
    ensures
        spec_format_body_packed(metadata.format_str.spec_bytes(), payload@) == Some(r@),
{
    let fmt = metadata.format_str.as_bytes();
    let mut output: Vec<Token> = Vec::new();
    if payload.len() == 0 || payload[0] == 0 {
        push_bytes(&mut output, fmt);
        assert(output@ =~= text(fmt@));
        return output;
    }
    let (offsets, end) = parse_schema_offsets(payload, 1, payload[0] as usize);
    let tables: &[&[u8]] = &[];
    let ufs: &[&dyn UserFormatter] = &[];
    assert(super::strtab::tables_view(tables@) =~= Seq::<Seq<u8>>::empty());
    assert(ufs@ =~= Seq::<&dyn UserFormatter>::empty());
    render_placeholders(fmt, payload, &offsets, payload, tables, ufs, end, &mut output);
    assert(output@ =~= Seq::<Token>::empty() + output@);
    output
}

} // verus!
