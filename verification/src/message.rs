//! Wire-protocol messages: the backend-message parser and the
//! frontend-message serializers.

pub mod backend;
pub mod frontend;
pub mod owned;
