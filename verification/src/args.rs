//! The arguments of the asset-loading invocations.
//!
//! An invocation hands the pipeline a sequence of source tokens: either a
//! single string literal naming one resource path, or a whole manifest list
//! of `"path": kind;` entries. The tokens are carried here as plain values —
//! a string literal's content, or any other token's textual form — so the
//! grammar can be checked and read without the compiler's machinery.

use vstd::prelude::*;
use vstd::pervasive::unreached;
use crate::common::ResourceType;

verus! {

/// One source token of an invocation: a string literal's content, or the
/// textual form of any other token (a punctuation mark, a resource kind).
#[derive(Debug, Clone, PartialEq, Eq)]
pub enum Token {
    StrLit(String),
    Plain(String),
}

/// The text a token shows: a literal's content, or the token's form.
pub open spec fn spec_token_text(token: Token) -> Seq<char> {
    match token {
        Token::StrLit(text) => text@,
        Token::Plain(text) => text@,
    }
}

/// The arguments of a single-resource invocation: the resource's path.
#[derive(Debug, Clone, Eq, PartialEq)]
pub struct Args {
    pub path: String,
}

/// The arguments of a manifest-list invocation: each resource's path with
/// its kind, in manifest order.
#[derive(Debug, Clone, Eq, PartialEq)]
pub struct ListArgs {
    pub resource_specs: Vec<(String, ResourceType)>,
}

/// Why a single-resource invocation was rejected.
#[derive(Debug, Clone, Copy, Eq, PartialEq)]
pub enum ParseError {
    /// The tokens are not one single literal.
    ExpectedPath,
    /// The literal is not a string literal.
    InvalidLiteralKind,
}

/// The resource kind a token text names, if any.
pub open spec fn spec_resource_type(text: Seq<char>) -> Option<ResourceType> {
    if text == "texture"@ {
        Some(ResourceType::Texture)
    } else if text == "pass_map"@ {
        Some(ResourceType::PassMap)
    } else if text == "rust_script"@ {
        Some(ResourceType::RustScript)
    } else if text == "room"@ {
        Some(ResourceType::Room)
    } else {
        None
    }
}

/// The resource kind `text` names, if any.
fn resource_type_of(text: &String) -> (r: Option<ResourceType>)
    ensures
        r == spec_resource_type(text@),
{
    if *text == String::from_str("texture") {
        Some(ResourceType::Texture)
    } else if *text == String::from_str("pass_map") {
        Some(ResourceType::PassMap)
    } else if *text == String::from_str("rust_script") {
        Some(ResourceType::RustScript)
    } else if *text == String::from_str("room") {
        Some(ResourceType::Room)
    } else {
        None
    }
}

/// Whether token `i` of a manifest list is what its position asks for: a
/// path literal, a colon, a resource kind, or a semicolon, in turns of four.
pub open spec fn spec_list_token_ok(tokens: Seq<Token>, i: int) -> bool {
    if i % 4 == 0 {
        tokens[i] is StrLit
    } else if i % 4 == 1 {
        tokens[i] is Plain && spec_token_text(tokens[i]) == ":"@
    } else if i % 4 == 2 {
        tokens[i] is Plain && spec_resource_type(spec_token_text(tokens[i])) is Some
    } else {
        tokens[i] is Plain && spec_token_text(tokens[i]) == ";"@
    }
}

/// A well-formed manifest list: every token fits its position. The list may
/// break off in the middle of an entry; the partial entry is dropped.
pub open spec fn spec_valid_list(tokens: Seq<Token>) -> bool {
    forall|i: int| 0 <= i < tokens.len() ==> #[trigger] spec_list_token_ok(tokens, i)
}

/// Reads a single-resource invocation: exactly one string literal, the
/// resource's path. Anything else is rejected, a lone non-string token with
/// its own error.
pub fn parse_args(tokens: &Vec<Token>) -> (r: Result<Args, ParseError>)
    ensures
        match r {
            Ok(args) => tokens@.len() == 1 && tokens@[0] is StrLit && args.path@
                == spec_token_text(tokens@[0]),
            Err(e) => {
                &&& !(tokens@.len() == 1 && tokens@[0] is StrLit)
                &&& e is InvalidLiteralKind <==> (tokens@.len() == 1 && tokens@[0] is Plain)
            },
        },
{
    if tokens.len() != 1 {
        return Err(ParseError::ExpectedPath);
    }
    match &tokens[0] {
        Token::StrLit(text) => Ok(Args { path: text.clone() }),
        Token::Plain(_) => Err(ParseError::InvalidLiteralKind),
    }
}

/// Reads a manifest list of `"path": kind;` entries into the resource specs
/// it declares, in order. A token out of place is a manifest error the
/// pipeline rejects outright, so the list must be well-formed; a trailing
/// partial entry is dropped.
pub fn parse_list_args(tokens: &Vec<Token>) -> (r: ListArgs)
    requires
        spec_valid_list(tokens@),
    ensures
        r.resource_specs@.len() == tokens@.len() / 4,
        forall|k: int|
            0 <= k < r.resource_specs@.len() ==> (#[trigger] r.resource_specs@[k]).0@
                == spec_token_text(tokens@[4 * k]) && Some(r.resource_specs@[k].1)
                == spec_resource_type(spec_token_text(tokens@[4 * k + 2])),
{
    let token_count = tokens.len();
    let total = token_count / 4;
    let mut resource_specs: Vec<(String, ResourceType)> = Vec::new();
    let mut entry: usize = 0;
    while entry < total
        invariant
            spec_valid_list(tokens@),
            token_count == tokens@.len(),
            total == tokens@.len() / 4,
            entry <= total,
            resource_specs@.len() == entry,
            forall|k: int|
                0 <= k < entry ==> (#[trigger] resource_specs@[k]).0@ == spec_token_text(
                    tokens@[4 * k],
                ) && Some(resource_specs@[k].1) == spec_resource_type(
                    spec_token_text(tokens@[4 * k + 2]),
                ),
        decreases total - entry,
    {
        proof {
            assert(4 * (tokens@.len() / 4) <= tokens@.len());
            assert(4 * entry + 2 < tokens@.len());
            assert(spec_list_token_ok(tokens@, 4 * entry));
            assert(spec_list_token_ok(tokens@, 4 * entry + 2));
        }
        let path = match &tokens[4 * entry] {
            Token::StrLit(text) => text.clone(),
            Token::Plain(_) => unreached(),
        };
        let resource_type = match &tokens[4 * entry + 2] {
            Token::Plain(text) => match resource_type_of(text) {
                Some(resource_type) => resource_type,
                None => unreached(),
            },
            Token::StrLit(_) => unreached(),
        };
        resource_specs.push((path, resource_type));
        entry = entry + 1;
    }
    ListArgs { resource_specs }
}

} // verus!
