use vstd::prelude::*;

verus! {

/// Errors reported by connectors and format readers.
#[derive(Debug, Clone)]
pub enum ConnectorError {
    InvalidRequest(String),
    ConnectionError(String),
    IOError(String),
    NotFound(String),
    SQLError(String),
    NoDataError,
}

impl ConnectorError {
    /// The kind and text of an error, as a view.
    pub open spec fn text(&self) -> Seq<char> {
        match self {
            ConnectorError::InvalidRequest(m) => m@,
            ConnectorError::ConnectionError(m) => m@,
            ConnectorError::IOError(m) => m@,
            ConnectorError::NotFound(m) => m@,
            ConnectorError::SQLError(m) => m@,
            ConnectorError::NoDataError => "No data"@,
        }
    }

    /// The human-readable text of the error.
    pub fn message(&self) -> (r: String)
        ensures
            r@ == self.text(),
    {
        match self {
            ConnectorError::InvalidRequest(m) => m.clone(),
            ConnectorError::ConnectionError(m) => m.clone(),
            ConnectorError::IOError(m) => m.clone(),
            ConnectorError::NotFound(m) => m.clone(),
            ConnectorError::SQLError(m) => m.clone(),
            ConnectorError::NoDataError => String::from_str("No data"),
        }
    }
}

/// Errors that the REST endpoints answer a bad request with.
#[derive(Debug, Clone)]
pub enum EndpointError {
    HeaderNotFound(String),
    InvalidHeaderValue(String),
}

} // verus!
