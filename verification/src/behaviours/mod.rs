pub mod behaviour;
pub mod behaviour_router;
pub mod route_laws;
