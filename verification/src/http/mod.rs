pub mod http_message;
pub mod http_request;
pub mod http_response;
pub mod request_round_trip;
pub mod response_round_trip;
pub mod round_trip;
