use vstd::prelude::*;

verus! {

/// The route table file: every mocked service.
#[derive(Clone, Debug)]
pub struct Configuration {
    pub services: Vec<Service>,
}

/// One mocked service: a path prefix shared by its sources.
#[derive(Clone, Debug)]
pub struct Service {
    pub name: String,
    pub prefix: String,
    pub sources: Vec<Source>,
}

/// One mock rule as written in the configuration.
/// `query_params` is descriptive only and takes no part in matching.
#[derive(Clone, Debug)]
pub struct Source {
    pub endpoint: String,
    pub method: String,
    pub content_type: String,
    pub response: String,
    pub status: u16,
    pub query_params: Option<Vec<String>>,
}

/// The HTTP methods a mock rule may declare.
#[derive(Clone, Copy, Debug, PartialEq, Eq, Structural)]
pub enum Method {
    Get,
    Post,
    Put,
    Delete,
    Patch,
}

/// The upper-case name of a method.
pub open spec fn method_name(m: Method) -> Seq<char> {
    match m {
        Method::Get => seq!['G', 'E', 'T'],
        Method::Post => seq!['P', 'O', 'S', 'T'],
        Method::Put => seq!['P', 'U', 'T'],
        Method::Delete => seq!['D', 'E', 'L', 'E', 'T', 'E'],
        Method::Patch => seq!['P', 'A', 'T', 'C', 'H'],
    }
}

/// The method whose name is exactly `s` (case-sensitive), if any.
pub open spec fn method_of(s: Seq<char>) -> Option<Method> {
    if s == method_name(Method::Get) {
        Some(Method::Get)
    } else if s == method_name(Method::Post) {
        Some(Method::Post)
    } else if s == method_name(Method::Put) {
        Some(Method::Put)
    } else if s == method_name(Method::Delete) {
        Some(Method::Delete)
    } else if s == method_name(Method::Patch) {
        Some(Method::Patch)
    } else {
        None
    }
}

/// A status code that HTTP defines: 100 to 599.
pub open spec fn valid_status(status: u16) -> bool {
    100 <= status <= 599
}

impl Method {
    /// The method's name, as it appears on a request line.
    pub fn as_string(self) -> (r: String)
        ensures
            r@ == method_name(self),
    {
        match self {
            Method::Get => {
                proof {
                    reveal_strlit("GET");
                }
                let r = String::from_str("GET");
                assert(r@ =~= method_name(self));
                r
            },
            Method::Post => {
                proof {
                    reveal_strlit("POST");
                }
                let r = String::from_str("POST");
                assert(r@ =~= method_name(self));
                r
            },
            Method::Put => {
                proof {
                    reveal_strlit("PUT");
                }
                let r = String::from_str("PUT");
                assert(r@ =~= method_name(self));
                r
            },
            Method::Delete => {
                proof {
                    reveal_strlit("DELETE");
                }
                let r = String::from_str("DELETE");
                assert(r@ =~= method_name(self));
                r
            },
            Method::Patch => {
                proof {
                    reveal_strlit("PATCH");
                }
                let r = String::from_str("PATCH");
                assert(r@ =~= method_name(self));
                r
            },
        }
    }
}

/// Reads a method name; anything but the five upper-case verbs is refused.
pub fn parse_method(s: &String) -> (r: Option<Method>)
    ensures
        r == method_of(s@),
{
    if *s == Method::Get.as_string() {
        Some(Method::Get)
    } else if *s == Method::Post.as_string() {
        Some(Method::Post)
    } else if *s == Method::Put.as_string() {
        Some(Method::Put)
    } else if *s == Method::Delete.as_string() {
        Some(Method::Delete)
    } else if *s == Method::Patch.as_string() {
        Some(Method::Patch)
    } else {
        None
    }
}

/// Whether `status` is a status code that HTTP defines.
pub fn is_valid_status(status: u16) -> (r: bool)
    ensures
        r == valid_status(status),
{
    100 <= status && status <= 599
}

} // verus!
