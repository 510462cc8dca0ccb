//! The closed set of request methods and the parsing of a method token.

use vstd::prelude::*;

use crate::text::str_eq;

verus! {

/// The nine request methods the parser recognizes.
#[derive(Clone, Copy, Debug, PartialEq, Eq, Structural)]
pub enum Method {
    Get,
    Delete,
    Post,
    Put,
    Head,
    Connect,
    Options,
    Trace,
    Patch,
}

/// Returned when a token matches none of the recognized methods.
#[derive(Clone, Copy, Debug, PartialEq, Eq, Structural)]
pub struct MethodError;

/// The method a token denotes: an exact, case-sensitive match against the
/// nine recognized spellings.
pub open spec fn method_of(s: Seq<char>) -> Option<Method> {
    if s == "GET"@ {
        Some(Method::Get)
    } else if s == "DELETE"@ {
        Some(Method::Delete)
    } else if s == "POST"@ {
        Some(Method::Post)
    } else if s == "PUT"@ {
        Some(Method::Put)
    } else if s == "HEAD"@ {
        Some(Method::Head)
    } else if s == "CONNECT"@ {
        Some(Method::Connect)
    } else if s == "OPTIONS"@ {
        Some(Method::Options)
    } else if s == "TRACE"@ {
        Some(Method::Trace)
    } else if s == "PATCH"@ {
        Some(Method::Patch)
    } else {
        None
    }
}

/// The spelling of a method.
pub open spec fn method_text(m: Method) -> Seq<char> {
    match m {
        Method::Get => "GET"@,
        Method::Delete => "DELETE"@,
        Method::Post => "POST"@,
        Method::Put => "PUT"@,
        Method::Head => "HEAD"@,
        Method::Connect => "CONNECT"@,
        Method::Options => "OPTIONS"@,
        Method::Trace => "TRACE"@,
        Method::Patch => "PATCH"@,
    }
}

/// Every method's spelling parses back to that method, and contains neither
/// a space nor a carriage return, so it survives tokenization intact.
pub proof fn lemma_method_text(m: Method)
    ensures
        method_of(method_text(m)) == Some(m),
        forall|i: int|
            0 <= i < method_text(m).len() ==> method_text(m)[i] != ' ' && method_text(m)[i]
                != '\r',
{
    reveal_strlit("GET");
    reveal_strlit("DELETE");
    reveal_strlit("POST");
    reveal_strlit("PUT");
    reveal_strlit("HEAD");
    reveal_strlit("CONNECT");
    reveal_strlit("OPTIONS");
    reveal_strlit("TRACE");
    reveal_strlit("PATCH");
    match m {
        Method::Get => {
            assert(method_text(m) =~= seq!['G', 'E', 'T']);
        },
        Method::Delete => {
            assert(method_text(m) =~= seq!['D', 'E', 'L', 'E', 'T', 'E']);
        },
        Method::Post => {
            assert(method_text(m) =~= seq!['P', 'O', 'S', 'T']);
        },
        Method::Put => {
            assert(method_text(m) =~= seq!['P', 'U', 'T']);
        },
        Method::Head => {
            assert(method_text(m) =~= seq!['H', 'E', 'A', 'D']);
        },
        Method::Connect => {
            assert(method_text(m) =~= seq!['C', 'O', 'N', 'N', 'E', 'C', 'T']);
        },
        Method::Options => {
            assert(method_text(m) =~= seq!['O', 'P', 'T', 'I', 'O', 'N', 'S']);
        },
        Method::Trace => {
            assert(method_text(m) =~= seq!['T', 'R', 'A', 'C', 'E']);
        },
        Method::Patch => {
            assert(method_text(m) =~= seq!['P', 'A', 'T', 'C', 'H']);
        },
    }
}

impl Method {
    /// Parses an exact, case-sensitive method token.
    pub fn parse(token: &str) -> (r: Result<Method, MethodError>)
        ensures
            match method_of(token@) {
                Some(m) => r == Ok::<Method, MethodError>(m),
                None => r == Err::<Method, MethodError>(MethodError),
            },
    {
        if str_eq(token, "GET") {
            Ok(Method::Get)
        } else if str_eq(token, "DELETE") {
            Ok(Method::Delete)
        } else if str_eq(token, "POST") {
            Ok(Method::Post)
        } else if str_eq(token, "PUT") {
            Ok(Method::Put)
        } else if str_eq(token, "HEAD") {
            Ok(Method::Head)
        } else if str_eq(token, "CONNECT") {
            Ok(Method::Connect)
        } else if str_eq(token, "OPTIONS") {
            Ok(Method::Options)
        } else if str_eq(token, "TRACE") {
            Ok(Method::Trace)
        } else if str_eq(token, "PATCH") {
            Ok(Method::Patch)
        } else {
            Err(MethodError)
        }
    }
}

} // verus!
