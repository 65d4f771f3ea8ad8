//! Core of a microscopic traffic simulation: the road graph and its paths,
//! traffic-control assignment at intersections, light schedules, and the
//! itinerary that each vehicle follows through the graph.
pub mod itinerary;
pub mod light_policy;
pub mod map;
pub mod polyline;
pub mod rng;
pub mod traffic;
pub mod traversable;
pub mod turn;
pub mod vehicles;
