//! The capability that handles a matched request.

use crate::http::http_request::{HttpRequest, RequestView};
use crate::http::http_response::{HttpResponse, ResponseView};
use crate::string_map::{Pair, StringMap};
use vstd::prelude::*;

verus! {

/// Why a handler produced no response.
#[derive(Debug)]
pub struct BehaviourError {
    pub message: String,
}

/// What a handler came back with, as mathematical values: a response, or the
/// description of a failure.
pub type Outcome = Result<ResponseView, Seq<char>>;

/// The outcome that a handler's result stands for.
pub open spec fn outcome_of(result: Result<HttpResponse, BehaviourError>) -> Outcome {
    match result {
        Ok(response) => Ok(response@),
        Err(e) => Err(e.message@),
    }
}

/// A handler: given a request and the parameters bound from its path, it
/// produces a response or fails.
pub trait Behaviour {
    /// Whether this handler may come back with `outcome` for the request and
    /// the parameters. Each handler says so for itself; one that says
    /// nothing may come back with anything.
    open spec fn may_return(
        &self,
        request: RequestView,
        params: Seq<Pair>,
        outcome: Outcome,
    ) -> bool {
        true
    }

    /// Handles the request.
    fn run(&self, request: &HttpRequest, params: StringMap) -> (result: Result<
        HttpResponse,
        BehaviourError,
    >)
        ensures
            self.may_return(request@, params.entries(), outcome_of(result)),
    ;
}

} // verus!
