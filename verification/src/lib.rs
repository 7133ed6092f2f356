//! Authentication gate, request routing and post logic of a social-media
//! post service.
//!
//! Every inbound request is authenticated before any business operation
//! runs. The client presents a certificate issued by the service's trust
//! anchor, a nonce that is its clock in milliseconds, and a signature that
//! binds its username to the nonce. The request is allowed if the
//! certificate is trusted and names the claimed username, the nonce lies
//! within sixty seconds of the server's clock, and the signature verifies
//! under the certificate's key.
//!
//! The library decides and computes; it reads no network and no clock. A
//! caller hands it the request's headers, what it read at the anchor's
//! location and the time, and acts on what comes back.
//!
//! - [`gate`] runs the stages of authentication in order; [`guarantees`]
//!   states what holds of every outcome.
//! - [`request`], [`decision`]: what goes in and what comes out.
//! - [`anchor`], [`certificate`], [`signature`], [`nonce`], [`encoding`]:
//!   the checks that the stages are made of.
//! - [`trusted`]: the calls into OpenSSL and the standard library that are
//!   taken on trust, not proved.
//! - [`router`]: what is done with a request once it is authenticated or
//!   refused.
//! - [`region`], [`binary64`]: the grid of regions, and the rounding of
//!   written coordinates to doubles on which it rests.
//! - [`records`], [`submission`], [`media`], [`recommendation`]: what the
//!   business operations store, search and reply.
//! - [`decimal`], [`text`]: digits and bytes.

pub mod anchor;
pub mod binary64;
pub mod certificate;
pub mod decimal;
pub mod decision;
pub mod encoding;
pub mod gate;
pub mod guarantees;
pub mod media;
pub mod nonce;
pub mod recommendation;
pub mod records;
pub mod region;
pub mod request;
pub mod router;
pub mod signature;
pub mod submission;
pub mod text;
pub mod trusted;
