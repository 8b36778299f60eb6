use vstd::prelude::*;

pub mod cluster;
pub mod config;
pub mod lifecycle;
pub mod router;
pub mod strings;

verus! {

/// Classification of an application's traffic into independently
/// load-balanced pools.
#[derive(Clone, Copy, Debug, PartialEq, Eq, Structural)]
pub enum UpstreamKind {
    Http,
    Websocket,
}

impl UpstreamKind {
    /// The label under which this kind appears in raw configuration input.
    pub fn as_str(&self) -> (r: &'static str)
        ensures
            *self == UpstreamKind::Http ==> r@ == "http"@,
            *self == UpstreamKind::Websocket ==> r@ == "websocket"@,
    {
        match self {
            UpstreamKind::Http => "http",
            UpstreamKind::Websocket => "websocket",
        }
    }
}

} // verus!
