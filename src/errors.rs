use vstd::prelude::*;

verus! {

/// The ways an operation of the journal can fail.
#[derive(Debug, Clone, Copy, PartialEq, Eq, Structural)]
pub enum ServiceError {
    /// No valid session, or login credentials that do not check out.
    Unauthorized,
    /// The row asked for does not exist or belongs to someone else.
    NotFound,
    /// The request names a row that the caller may not use.
    BadRequest,
    /// The email address is already registered.
    Conflict,
    /// Storage failed, or the background work was abandoned.
    InternalServerError,
}

impl ServiceError {
    /// The HTTP status that the boundary answers with.
    pub open spec fn spec_status_code(self) -> u16 {
        match self {
            ServiceError::Unauthorized => 401,
            ServiceError::NotFound => 404,
            ServiceError::BadRequest => 400,
            ServiceError::Conflict => 409,
            ServiceError::InternalServerError => 500,
        }
    }

    pub fn status_code(&self) -> (r: u16)
        ensures
            r == self.spec_status_code(),
    {
        match self {
            ServiceError::Unauthorized => 401,
            ServiceError::NotFound => 404,
            ServiceError::BadRequest => 400,
            ServiceError::Conflict => 409,
            ServiceError::InternalServerError => 500,
        }
    }
}

/// The result of work run in the background: `None` when the work was
/// abandoned before it finished, which counts as an internal failure.
pub fn settle_blocking<T>(outcome: Option<Result<T, ServiceError>>) -> (r: Result<T, ServiceError>)
    ensures
        outcome is None ==> r == Err::<T, ServiceError>(ServiceError::InternalServerError),
        outcome is Some ==> r == outcome->0,
{
    match outcome {
        Some(res) => res,
        None => Err(ServiceError::InternalServerError),
    }
}

} // verus!
