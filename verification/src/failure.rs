//! The ways in which a request can fail, the response status each one maps
//! to, and the precedence among failures raised by competing routes.

use vstd::prelude::*;

verus! {

pub const OK: u16 = 200;

pub const CREATED: u16 = 201;

pub const NO_CONTENT: u16 = 204;

pub const BAD_REQUEST: u16 = 400;

pub const UNAUTHORIZED: u16 = 401;

pub const NOT_FOUND: u16 = 404;

pub const METHOD_NOT_ALLOWED: u16 = 405;

pub const INTERNAL_SERVER_ERROR: u16 = 500;

/// Why a request was not completed.
#[derive(Clone, Copy, Debug, PartialEq, Eq, Structural)]
pub enum Failure {
    /// No route has the shape of the request's path.
    RouteNotFound,
    /// Some route has the shape of the path, but none of those takes the method.
    MethodNotAllowed,
    /// The body is not a value of the type that the route expects.
    MalformedBody,
    /// The body is larger than the route accepts.
    PayloadTooLarge,
    /// The query string does not decode into the route's options.
    MalformedQuery,
    /// A parameter of the request does not hold a value of the expected type.
    MalformedParameter,
    /// A numeric parameter lies outside the interval it is confined to.
    OutOfRange,
    /// The store already holds an entry with the given id.
    Conflict,
    /// The store holds no entry with the given id.
    NotFound,
    /// The request does not carry the credentials that the route demands.
    Unauthorized,
    /// Anything that none of the other kinds describes.
    Internal,
}

impl Failure {
    /// The response status of this failure.
    pub open spec fn code(self) -> u16 {
        match self {
            Failure::RouteNotFound | Failure::NotFound => NOT_FOUND,
            Failure::MethodNotAllowed => METHOD_NOT_ALLOWED,
            Failure::Unauthorized => UNAUTHORIZED,
            Failure::Internal => INTERNAL_SERVER_ERROR,
            Failure::MalformedBody
            | Failure::PayloadTooLarge
            | Failure::MalformedQuery
            | Failure::MalformedParameter
            | Failure::OutOfRange
            | Failure::Conflict => BAD_REQUEST,
        }
    }

    /// The short name that a response carries for a status.
    pub open spec fn label(code: u16) -> Seq<char> {
        if code == NOT_FOUND {
            "NOT_FOUND"@
        } else if code == BAD_REQUEST {
            "BAD_REQUEST"@
        } else if code == METHOD_NOT_ALLOWED {
            "METHOD_NOT_ALLOWED"@
        } else if code == UNAUTHORIZED {
            "UNAUTHORIZED"@
        } else {
            "UNHANDLED_REJECTION"@
        }
    }

    /// How specific this failure is: a route that rejects a request for one
    /// of its own conditions has matched path and method, which says more
    /// than a method that no route takes, which in turn says more than a
    /// path that no route knows.
    pub open spec fn rank(self) -> nat {
        match self {
            Failure::RouteNotFound => 0,
            Failure::MethodNotAllowed => 1,
            _ => 2,
        }
    }

    /// Of two failures raised for one request, the one to report: the more
    /// specific, and the earlier of two that are equally specific.
    pub open spec fn preferred(self, later: Failure) -> Failure {
        if later.rank() > self.rank() {
            later
        } else {
            self
        }
    }

    /// The response status of this failure.
    pub fn status(self) -> (code: u16)
        ensures
            code == self.code(),
    {
        match self {
            Failure::RouteNotFound | Failure::NotFound => NOT_FOUND,
            Failure::MethodNotAllowed => METHOD_NOT_ALLOWED,
            Failure::Unauthorized => UNAUTHORIZED,
            Failure::Internal => INTERNAL_SERVER_ERROR,
            Failure::MalformedBody
            | Failure::PayloadTooLarge
            | Failure::MalformedQuery
            | Failure::MalformedParameter
            | Failure::OutOfRange
            | Failure::Conflict => BAD_REQUEST,
        }
    }

    /// The short name that a response carries for this failure's status.
    pub fn message(self) -> (name: &'static str)
        ensures
            name@ == Failure::label(self.code()),
    {
        match self {
            Failure::RouteNotFound | Failure::NotFound => "NOT_FOUND",
            Failure::MethodNotAllowed => "METHOD_NOT_ALLOWED",
            Failure::Unauthorized => "UNAUTHORIZED",
            Failure::Internal => "UNHANDLED_REJECTION",
            Failure::MalformedBody
            | Failure::PayloadTooLarge
            | Failure::MalformedQuery
            | Failure::MalformedParameter
            | Failure::OutOfRange
            | Failure::Conflict => "BAD_REQUEST",
        }
    }

    /// Of two failures raised for one request, the one to report.
    pub fn prefer(self, later: Failure) -> (chosen: Failure)
        ensures
            chosen == self.preferred(later),
    {
        let mine: u8 = match self {
            Failure::RouteNotFound => 0,
            Failure::MethodNotAllowed => 1,
            _ => 2,
        };
        let theirs: u8 = match later {
            Failure::RouteNotFound => 0,
            Failure::MethodNotAllowed => 1,
            _ => 2,
        };
        if theirs > mine {
            later
        } else {
            self
        }
    }

    /// Of all the failures raised for one request, in the order in which they
    /// were raised, the one to report. Where none was raised the request
    /// reached no route at all.
    pub open spec fn chosen(signals: Seq<Failure>) -> Failure
        decreases signals.len(),
    {
        if signals.len() == 0 {
            Failure::RouteNotFound
        } else {
            Failure::chosen(signals.drop_last()).preferred(signals.last())
        }
    }

    /// Of all the failures raised for one request, the one to report.
    pub fn select(signals: &Vec<Failure>) -> (chosen: Failure)
        ensures
            chosen == Failure::chosen(signals@),
    {
        let mut best = Failure::RouteNotFound;
        let mut i: usize = 0;
        while i < signals.len()
            invariant
                i <= signals.len(),
                best == Failure::chosen(signals@.take(i as int)),
            decreases signals.len() - i,
        {
            assert(signals@.take(i + 1).drop_last() =~= signals@.take(i as int));
            best = best.prefer(signals[i]);
            i += 1;
        }
        assert(signals@.take(i as int) =~= signals@);
        best
    }
}

/// Whether the failure in place `k` is the first of the most specific
/// among `signals`.
pub open spec fn leads(signals: Seq<Failure>, k: int) -> bool {
    &&& 0 <= k < signals.len()
    &&& forall|j: int|
        0 <= j < signals.len() ==> (#[trigger] signals[j]).rank() <= signals[k].rank()
    &&& forall|j: int| 0 <= j < k ==> (#[trigger] signals[j]).rank() < signals[k].rank()
}

/// The failure reported for a request is the most specific of those raised,
/// and the first of them where several are equally specific; where none was
/// raised it is that no route was found.
pub proof fn law_chosen(signals: Seq<Failure>)
    ensures
        signals.len() == 0 ==> Failure::chosen(signals) == Failure::RouteNotFound,
        signals.len() > 0 ==> exists|k: int|
            leads(signals, k) && Failure::chosen(signals) == signals[k],
    decreases signals.len(),
{
    if signals.len() > 0 {
        let init = signals.drop_last();
        let last = signals.last();
        let n = signals.len() - 1;
        assert(signals[n] == last);
        if init.len() == 0 {
            assert(leads(signals, 0));
        } else {
            law_chosen(init);
            let k = choose|k: int| leads(init, k) && Failure::chosen(init) == init[k];
            assert(signals[k] == init[k]);
            assert forall|j: int| 0 <= j < n implies (#[trigger] signals[j]).rank()
                <= signals[k].rank() by {
                assert(signals[j] == init[j]);
            }
            assert forall|j: int| 0 <= j < k implies (#[trigger] signals[j]).rank()
                < signals[k].rank() by {
                assert(signals[j] == init[j]);
            }
            if last.rank() > init[k].rank() {
                assert(leads(signals, n));
            } else {
                assert(leads(signals, k));
            }
        }
    }
}

} // verus!
