//! What the board and the turn rules answer when they refuse a request.

use vstd::prelude::*;
use crate::location::Location;

verus! {

/// Why a place or a placement was refused.
#[derive(Debug, PartialEq, Eq, Copy, Clone, Structural)]
pub enum LocationErrorKind {
    /// The place is not on the board, or nothing can be done at it.
    InvalidLocation,
    /// The tile would open a path that leads off the board.
    InvalidPlacement,
}

/// Why a token was not moved.
#[derive(Debug, PartialEq, Eq, Copy, Clone, Structural)]
pub enum MoveErrorKind {
    /// The token stands nowhere on the board.
    TokenNotFound,
    /// No path leads from the token to the destination.
    NoPath,
}

/// A place or a placement that was refused.
#[derive(Debug, PartialEq, Eq, Clone)]
pub struct LocationError {
    pub kind: LocationErrorKind,
    pub details: String,
}

/// A move of a token that was refused.
#[derive(Debug, PartialEq, Eq, Clone)]
pub struct MoveError {
    pub kind: MoveErrorKind,
    pub details: String,
}

/// A request of a player who may not make it.
#[derive(Debug, PartialEq, Eq, Clone)]
pub struct WrongPlayer {
    pub details: String,
}

/// A request that does not fit the phase of the turn.
#[derive(Debug, PartialEq, Eq, Clone)]
pub struct TurnError {
    pub details: String,
}

/// Any of the refusals.
#[derive(Debug, PartialEq, Eq, Clone)]
pub enum GenericError {
    Location(LocationError),
    Move(MoveError),
    WrongPlayer(WrongPlayer),
    Turn(TurnError),
}

pub type GenericResult<T> = Result<T, GenericError>;

/// The message of a refused place: the words "Invalid location" and the place.
pub open spec fn invalid_location_text(location: Location) -> Seq<char> {
    "Invalid location "@ + location.text()
}

impl LocationError {
    /// The message that the error carries.
    pub open spec fn text(&self) -> Seq<char> {
        self.details@
    }

    /// A refused place with the given message.
    pub fn new(message: &str) -> (e: LocationError)
        ensures
            e.kind == LocationErrorKind::InvalidLocation,
            e.text() == message@,
    {
        LocationError { kind: LocationErrorKind::InvalidLocation, details: message.to_owned() }
    }

    /// A refused placement with the given message.
    pub fn placement(message: &str) -> (e: LocationError)
        ensures
            e.kind == LocationErrorKind::InvalidPlacement,
            e.text() == message@,
    {
        LocationError { kind: LocationErrorKind::InvalidPlacement, details: message.to_owned() }
    }

    /// The message that the error carries.
    pub fn description(&self) -> (s: &str)
        ensures
            s@ == self.text(),
    {
        self.details.as_str()
    }

    /// The message that the error carries.
    pub fn to_string(&self) -> (s: String)
        ensures
            s@ == self.text(),
    {
        self.details.clone()
    }
}

impl From<&Location> for LocationError {
    /// The refusal of `location` as a place that is not on the board.
    fn from(location: &Location) -> (e: LocationError)
        ensures
            e.kind == LocationErrorKind::InvalidLocation,
            e.text() == invalid_location_text(*location),
    {
        let mut details = "Invalid location ".to_owned();
        let place = location.to_string();
        details.push_str(place.as_str());
        LocationError { kind: LocationErrorKind::InvalidLocation, details }
    }
}

impl vstd::std_specs::convert::FromSpecImpl<&Location> for LocationError {
    open spec fn obeys_from_spec() -> bool {
        false
    }

    open spec fn from_spec(location: &Location) -> LocationError {
        arbitrary()
    }
}

impl MoveError {
    /// The message that the error carries.
    pub open spec fn text(&self) -> Seq<char> {
        self.details@
    }

    /// A move refused for want of a path, with the given message.
    pub fn new(message: &str) -> (e: MoveError)
        ensures
            e.kind == MoveErrorKind::NoPath,
            e.text() == message@,
    {
        MoveError { kind: MoveErrorKind::NoPath, details: message.to_owned() }
    }

    /// A move refused because the token is not on the board, with the given
    /// message.
    pub fn token_not_found(message: &str) -> (e: MoveError)
        ensures
            e.kind == MoveErrorKind::TokenNotFound,
            e.text() == message@,
    {
        MoveError { kind: MoveErrorKind::TokenNotFound, details: message.to_owned() }
    }

    /// The message that the error carries.
    pub fn description(&self) -> (s: &str)
        ensures
            s@ == self.text(),
    {
        self.details.as_str()
    }

    /// The message that the error carries.
    pub fn to_string(&self) -> (s: String)
        ensures
            s@ == self.text(),
    {
        self.details.clone()
    }
}

impl WrongPlayer {
    /// The message that the error carries.
    pub open spec fn text(&self) -> Seq<char> {
        self.details@
    }

    /// A refusal with the given message.
    pub fn new(message: &str) -> (e: WrongPlayer)
        ensures
            e.text() == message@,
    {
        WrongPlayer { details: message.to_owned() }
    }

    /// The message that the error carries.
    pub fn description(&self) -> (s: &str)
        ensures
            s@ == self.text(),
    {
        self.details.as_str()
    }

    /// The message that the error carries.
    pub fn to_string(&self) -> (s: String)
        ensures
            s@ == self.text(),
    {
        self.details.clone()
    }
}

impl TurnError {
    /// The message that the error carries.
    pub open spec fn text(&self) -> Seq<char> {
        self.details@
    }

    /// A refusal with the given message.
    pub fn new(message: &str) -> (e: TurnError)
        ensures
            e.text() == message@,
    {
        TurnError { details: message.to_owned() }
    }

    /// The message that the error carries.
    pub fn description(&self) -> (s: &str)
        ensures
            s@ == self.text(),
    {
        self.details.as_str()
    }

    /// The message that the error carries.
    pub fn to_string(&self) -> (s: String)
        ensures
            s@ == self.text(),
    {
        self.details.clone()
    }
}

impl GenericError {
    /// The message that the error carries.
    pub open spec fn text(&self) -> Seq<char> {
        match self {
            GenericError::Location(e) => e.text(),
            GenericError::Move(e) => e.text(),
            GenericError::WrongPlayer(e) => e.text(),
            GenericError::Turn(e) => e.text(),
        }
    }

    /// The message that the error carries.
    pub fn to_string(&self) -> (s: String)
        ensures
            s@ == self.text(),
    {
        match self {
            GenericError::Location(e) => e.to_string(),
            GenericError::Move(e) => e.to_string(),
            GenericError::WrongPlayer(e) => e.to_string(),
            GenericError::Turn(e) => e.to_string(),
        }
    }
}

} // verus!
