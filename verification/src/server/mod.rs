//! Decisions of the Vellum API server: input validation, access control and
//! token claims. The HTTP and database plumbing lives outside the library.
pub mod middleware;
pub mod models;
pub mod routes;

use vstd::prelude::*;

verus! {

/// The HTTP statuses the server answers with.
#[derive(Clone, Copy, PartialEq, Eq, Structural, Debug)]
pub enum HttpStatus {
    Success,
    Created,
    NoContent,
    BadRequest,
    Unauthorized,
    Forbidden,
    NotFound,
    Conflict,
    InternalServerError,
}

impl HttpStatus {
    pub open spec fn spec_code(self) -> u16 {
        match self {
            HttpStatus::Success => 200,
            HttpStatus::Created => 201,
            HttpStatus::NoContent => 204,
            HttpStatus::BadRequest => 400,
            HttpStatus::Unauthorized => 401,
            HttpStatus::Forbidden => 403,
            HttpStatus::NotFound => 404,
            HttpStatus::Conflict => 409,
            HttpStatus::InternalServerError => 500,
        }
    }

    /// The numeric status code.
    pub fn code(&self) -> (c: u16)
        ensures
            c == self.spec_code(),
    {
        match self {
            HttpStatus::Success => 200,
            HttpStatus::Created => 201,
            HttpStatus::NoContent => 204,
            HttpStatus::BadRequest => 400,
            HttpStatus::Unauthorized => 401,
            HttpStatus::Forbidden => 403,
            HttpStatus::NotFound => 404,
            HttpStatus::Conflict => 409,
            HttpStatus::InternalServerError => 500,
        }
    }
}

/// A refusal: the status and the message sent as the body.
pub struct ApiError {
    pub status: HttpStatus,
    pub message: String,
}

/// The view of a validation outcome.
pub open spec fn unit_result_view(r: Result<(), ApiError>) -> Result<(), (HttpStatus, Seq<char>)> {
    match r {
        Ok(()) => Ok(()),
        Err(e) => Err((e.status, e.message@)),
    }
}

/// The view of an outcome that carries text.
pub open spec fn text_result_view(r: Result<String, ApiError>) -> Result<Seq<char>, (HttpStatus, Seq<char>)> {
    match r {
        Ok(s) => Ok(s@),
        Err(e) => Err((e.status, e.message@)),
    }
}

} // verus!
