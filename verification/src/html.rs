//! The page payloads the web layer serves.
//!
//! Rendering to HTTP responses is presentation work and lives outside this
//! library; these types are the values it renders.
use vstd::prelude::*;

verus! {

/// The landing page. It carries no data: the page is static.
pub struct HomepageTemplate;

/// A value to be rendered as an HTML response.
pub struct HtmlTemplate<T>(pub T);

} // verus!
