//! A `Set-Cookie` header value kept as one packed text buffer that can be
//! edited attribute by attribute.  The buffer always equals the fixed-order
//! rendering `name=value; Domain=..; Path=..; Max-Age=..; Secure; HttpOnly;
//! Expires=..`, and a small set of cached offsets locates every segment
//! without rescanning the text.

pub mod cookie;
pub mod digits;
pub mod laws;
pub mod text;
pub mod tstamp;

pub use cookie::adjust;
pub use cookie::Cookie;
pub use cookie::CookieView;
pub use tstamp::Timestamp;
