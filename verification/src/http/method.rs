//! The closed set of supported HTTP verbs and their textual conversion.

use vstd::prelude::*;

use crate::text::str_eq;

verus! {

/// A supported HTTP verb.
///
/// A value of this type is always one of the declared variants: unrecognized
/// text fails conversion instead of producing a value.
#[derive(Clone, Copy, Debug, PartialEq, Eq, Structural)]
pub enum Method {
    Get,
    Post,
    Put,
    Delete,
    Head,
    Options,
    Patch,
}

/// The token named no supported verb.
#[derive(Clone, Copy, Debug, PartialEq, Eq, Structural)]
pub struct MethodError;

/// The verb whose name the token spells exactly, if any.
///
/// Matching is case-sensitive, with no trimming or normalization: the caller
/// must hand over the bare token.
pub open spec fn spec_method_of(s: Seq<char>) -> Option<Method> {
    if s == "GET"@ {
        Some(Method::Get)
    } else if s == "POST"@ {
        Some(Method::Post)
    } else if s == "PUT"@ {
        Some(Method::Put)
    } else if s == "DELETE"@ {
        Some(Method::Delete)
    } else if s == "HEAD"@ {
        Some(Method::Head)
    } else if s == "OPTIONS"@ {
        Some(Method::Options)
    } else if s == "PATCH"@ {
        Some(Method::Patch)
    } else {
        None
    }
}

/// The exact textual name of a verb.
pub open spec fn spec_method_name(m: Method) -> Seq<char> {
    match m {
        Method::Get => "GET"@,
        Method::Post => "POST"@,
        Method::Put => "PUT"@,
        Method::Delete => "DELETE"@,
        Method::Head => "HEAD"@,
        Method::Options => "OPTIONS"@,
        Method::Patch => "PATCH"@,
    }
}

/// A verb's name converts back to that verb, and never contains a space,
/// a carriage return, or a question mark.
pub proof fn lemma_method_name(m: Method)
    ensures
        spec_method_of(spec_method_name(m)) == Some(m),
        forall|j: int|
            0 <= j < spec_method_name(m).len() ==> #[trigger] spec_method_name(m)[j] != ' '
                && spec_method_name(m)[j] != '\r' && spec_method_name(m)[j] != '?',
{
    reveal_strlit("GET");
    reveal_strlit("POST");
    reveal_strlit("PUT");
    reveal_strlit("DELETE");
    reveal_strlit("HEAD");
    reveal_strlit("OPTIONS");
    reveal_strlit("PATCH");
    assert("GET"@.len() == 3);
    assert("POST"@.len() == 4);
    assert("PUT"@.len() == 3);
    assert("DELETE"@.len() == 6);
    assert("HEAD"@.len() == 4);
    assert("OPTIONS"@.len() == 7);
    assert("PATCH"@.len() == 5);
    assert("PUT"@ != "GET"@) by {
        assert("PUT"@[0] == 'P');
        assert("GET"@[0] == 'G');
    }
    assert("HEAD"@ != "POST"@) by {
        assert("HEAD"@[0] == 'H');
        assert("POST"@[0] == 'P');
    }
    assert("POST"@ != "GET"@);
    assert("PUT"@ != "POST"@);
    assert("DELETE"@ != "GET"@ && "DELETE"@ != "POST"@ && "DELETE"@ != "PUT"@);
    assert("HEAD"@ != "GET"@ && "HEAD"@ != "PUT"@ && "HEAD"@ != "DELETE"@);
    assert("OPTIONS"@ != "GET"@ && "OPTIONS"@ != "POST"@ && "OPTIONS"@ != "PUT"@);
    assert("OPTIONS"@ != "DELETE"@ && "OPTIONS"@ != "HEAD"@);
    assert("PATCH"@ != "GET"@ && "PATCH"@ != "POST"@ && "PATCH"@ != "PUT"@);
    assert("PATCH"@ != "DELETE"@ && "PATCH"@ != "HEAD"@ && "PATCH"@ != "OPTIONS"@);
    match m {
        Method::Get => assert(spec_method_of(spec_method_name(m)) == Some(Method::Get)),
        Method::Post => assert(spec_method_of(spec_method_name(m)) == Some(Method::Post)),
        Method::Put => assert(spec_method_of(spec_method_name(m)) == Some(Method::Put)),
        Method::Delete => assert(spec_method_of(spec_method_name(m)) == Some(Method::Delete)),
        Method::Head => assert(spec_method_of(spec_method_name(m)) == Some(Method::Head)),
        Method::Options => assert(spec_method_of(spec_method_name(m)) == Some(Method::Options)),
        Method::Patch => assert(spec_method_of(spec_method_name(m)) == Some(Method::Patch)),
    }
}

impl Method {
    /// Parse a textual token into a verb, exactly when it names one.
    pub fn from_name(s: &str) -> (r: Result<Method, MethodError>)
        ensures
            match r {
                Ok(m) => spec_method_of(s@) == Some(m),
                Err(_) => spec_method_of(s@) is None,
            },
    {
        if str_eq(s, "GET") {
            Ok(Method::Get)
        } else if str_eq(s, "POST") {
            Ok(Method::Post)
        } else if str_eq(s, "PUT") {
            Ok(Method::Put)
        } else if str_eq(s, "DELETE") {
            Ok(Method::Delete)
        } else if str_eq(s, "HEAD") {
            Ok(Method::Head)
        } else if str_eq(s, "OPTIONS") {
            Ok(Method::Options)
        } else if str_eq(s, "PATCH") {
            Ok(Method::Patch)
        } else {
            Err(MethodError)
        }
    }
}

} // verus!
