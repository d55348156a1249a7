use vstd::prelude::*;

verus! {

/// The metadata that the store keeps with a resource.
#[derive(Debug, Clone)]
pub struct ResourceMetadata {
    pub id: String,
}

/// A Flight service that registered itself for discovery.
#[derive(Debug, Clone)]
pub struct FlightService {
    pub name: String,
    pub namespace: String,
    pub external_url: String,
    pub internal_url: String,
    pub supported_connectors: Vec<String>,
    pub status: FlightServiceStatus,
}

/// Whether a Flight service is ready to serve.
#[derive(Debug, Clone, Copy, PartialEq, Eq, Structural)]
pub struct FlightServiceStatus {
    pub ready: bool,
}

impl Default for FlightServiceStatus {
    fn default() -> (r: FlightServiceStatus)
        ensures
            !r.ready,
    {
        FlightServiceStatus { ready: false }
    }
}

/// A stored Flight service with its metadata.
#[derive(Debug, Clone)]
pub struct FlightServiceResource {
    pub metadata: ResourceMetadata,
    pub resource: FlightService,
}

} // verus!
