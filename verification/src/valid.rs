//! Syntactic validation of IRIs and language tags, performed by the
//! `oxiri` and `oxilangtag` crates behind trusted wrappers.

use vstd::prelude::*;
use vstd::std_specs::iter::IteratorSpec;

verus! {

/// Whether a string follows the RFC 3987 grammar for an absolute IRI,
/// as decided by `oxiri::Iri::parse`.
pub uninterp spec fn iri_ok(s: Seq<char>) -> bool;

/// Whether a string follows the BCP-47 grammar for a language tag,
/// as decided by `oxilangtag::LanguageTag::parse`.
pub uninterp spec fn lang_tag_ok(s: Seq<char>) -> bool;

/// Relies on oxiri's `Iri::parse`: it validates the string against the
/// RFC 3987 grammar, keeps the argument unchanged on success (the
/// documentation says the operation keeps the `iri` parameter and does
/// not allocate), and `into_inner` hands that same string back.
#[verifier::external_body]
pub fn check_iri(iri: String) -> (r: Result<String, ()>)
    ensures
        r matches Ok(s) ==> s@ == iri@,
        r is Ok <==> iri_ok(iri@),
{
    match oxiri::Iri::parse(iri) {
        Ok(parsed) => Ok(parsed.into_inner()),
        Err(_) => Err(()),
    }
}

/// Relies on oxilangtag's `LanguageTag::parse`: it validates the string
/// against the BCP-47 grammar and keeps the argument unchanged on
/// success; `into_inner` hands that same string back.
#[verifier::external_body]
pub fn check_language_tag(tag: String) -> (r: Result<String, ()>)
    ensures
        r matches Ok(s) ==> s@ == tag@,
        r is Ok <==> lang_tag_ok(tag@),
{
    match oxilangtag::LanguageTag::parse(tag) {
        Ok(parsed) => Ok(parsed.into_inner()),
        Err(_) => Err(()),
    }
}

/// The ASCII-lowercased image of a string: `A`-`Z` mapped to `a`-`z`,
/// every other character kept.
pub open spec fn ascii_lower(s: Seq<char>) -> Seq<char> {
    s.map_values(|c: char| if 'A' <= c && c <= 'Z' { ((c as u8) + 0x20) as char } else { c })
}

/// Relies on `String::push`: the standard library documents that it
/// appends the given character to the end of the string.
#[verifier::external_body]
pub fn push_char(s: &mut String, c: char)
    ensures
        final(s)@ == old(s)@.push(c),
{
    s.push(c);
}

/// The characters of a string, as a vector.
pub fn str_to_chars(s: &str) -> (r: Vec<char>)
    ensures
        r@ == s@,
{
    broadcast use vstd::string::group_string_axioms, vstd::string::next_postcondition;

    let mut out: Vec<char> = Vec::new();
    let mut it = s.chars();
    loop
        invariant
            it.decrease() is Some,
            s@ =~= out@ + it.remaining(),
        ensures
            out@ =~= s@,
        decreases it.decrease()->0,
    {
        let c = match it.next() {
            Some(c) => c,
            None => { break },
        };
        out.push(c);
    }
    out
}

/// Lowercases the ASCII letters of a string, leaving all other
/// characters in place. Language tags are compared case-insensitively,
/// so they are brought to lowercase on construction.
pub fn to_ascii_lower(s: &str) -> (r: String)
    ensures
        r@ == ascii_lower(s@),
{
    let chars = str_to_chars(s);
    let mut out = String::new();
    let mut i: usize = 0;
    while i < chars.len()
        invariant
            i <= chars.len(),
            chars@ == s@,
            out@ =~= ascii_lower(s@.take(i as int)),
        decreases chars.len() - i,
    {
        let c = chars[i];
        if 'A' <= c && c <= 'Z' {
            let lower = ((c as u8) + 0x20) as char;
            push_char(&mut out, lower);
        } else {
            push_char(&mut out, c);
        }
        i = i + 1;
        proof {
            assert(s@.take(i as int) =~= s@.take(i - 1).push(c));
            assert(out@ =~= ascii_lower(s@.take(i as int)));
        }
    }
    proof {
        assert(s@.take(chars@.len() as int) =~= s@);
    }
    out
}

} // verus!
