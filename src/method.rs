//! HTTP request methods as the router sees them.
use vstd::prelude::*;

verus! {

/// An HTTP method: the nine standard ones, and `Other` for any extension method.
#[derive(Clone, Copy, Debug, PartialEq, Eq, Structural)]
pub enum Method {
    Get,
    Post,
    Put,
    Patch,
    Delete,
    Connect,
    Head,
    Options,
    Trace,
    Other,
}

/// The universal method set, in its canonical order.
pub open spec fn universal_methods() -> Seq<Method> {
    seq![
        Method::Get,
        Method::Post,
        Method::Put,
        Method::Patch,
        Method::Delete,
        Method::Connect,
        Method::Head,
        Method::Options,
        Method::Trace,
    ]
}

/// The universal method set: GET, POST, PUT, PATCH, DELETE, CONNECT, HEAD, OPTIONS, TRACE.
pub fn all_possible_http_methods() -> (r: Vec<Method>)
    ensures
        r@ == universal_methods(),
{
    let r = vec![
        Method::Get,
        Method::Post,
        Method::Put,
        Method::Patch,
        Method::Delete,
        Method::Connect,
        Method::Head,
        Method::Options,
        Method::Trace,
    ];
    assert(r@ =~= universal_methods());
    r
}

/// Whether two method lists are equal, element by element.
pub fn same_methods(a: &Vec<Method>, b: &Vec<Method>) -> (r: bool)
    ensures
        r == (a@ == b@),
{
    if a.len() != b.len() {
        return false;
    }
    let mut i: usize = 0;
    while i < a.len()
        invariant
            i <= a@.len(),
            a@.len() == b@.len(),
            forall|j: int| 0 <= j < i ==> a@[j] == b@[j],
        decreases a@.len() - i,
    {
        if a[i] != b[i] {
            return false;
        }
        i = i + 1;
    }
    assert(a@ =~= b@);
    true
}

/// Whether a method list holds a method.
pub fn contains_method(methods: &Vec<Method>, m: Method) -> (r: bool)
    ensures
        r == methods@.contains(m),
{
    let mut i: usize = 0;
    while i < methods.len()
        invariant
            i <= methods@.len(),
            forall|j: int| 0 <= j < i ==> methods@[j] != m,
        decreases methods@.len() - i,
    {
        if methods[i] == m {
            return true;
        }
        i = i + 1;
    }
    false
}

} // verus!
