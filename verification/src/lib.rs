//! ether: a small web framework. Routes match a request's method and path
//! segments and read typed parameters from them; launchers decide which
//! route, which file, or which mounted launcher answers a request.
pub mod hyper_sample;
pub mod method;
pub mod param;
pub mod paths;
pub mod request;
pub mod response;
pub mod routing;
pub mod runtime;
pub mod utils;
